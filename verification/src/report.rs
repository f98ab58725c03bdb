//! The per-day report: which rows fall into a day's window, the seconds
//! spent per label, and the grand total.

use vstd::prelude::*;
use crate::error::TimerError;
use crate::store::{answers, StoreReply, StoreRequest};
use crate::table::{all_consistent, closed_in_range, has_record, in_window, record_elapsed, total_elapsed};
use crate::task::{table_of, Task, TaskView};

verus! {

/// Width of a day's window in seconds. A day is always taken to be exactly
/// this wide, also when the local clock is shifted within it.
pub const DAY_SECONDS: i64 = 86400;

/// The instants `[low, high]` that bucket rows into one calendar day, both
/// ends counted.
#[derive(Debug, Clone, Copy, PartialEq, Eq)]
pub struct ReportWindow {
    pub low: i64,
    pub high: i64,
}

/// Seconds spent on one label.
#[derive(Debug, PartialEq, Eq)]
pub struct RecordTotal {
    pub record: String,
    pub seconds: u128,
}

/// The mathematical value of a report: seconds per label, and the sum over
/// all labels.
pub struct ReportView {
    pub per_record: Map<Seq<char>, int>,
    pub total: int,
}

/// The report over the given rows, all of them counted.
pub open spec fn summary(rows: Seq<TaskView>) -> ReportView {
    ReportView {
        per_record: Map::new(
            |record: Seq<char>| has_record(rows, record),
            |record: Seq<char>| record_elapsed(rows, record),
        ),
        total: total_elapsed(rows),
    }
}

/// The report of the window `[low, high]`: the summary of the stopped rows
/// that start within it.
pub open spec fn day_report(table: Seq<TaskView>, low: int, high: int) -> ReportView {
    summary(closed_in_range(table, low, high))
}

impl ReportWindow {
    /// The window of the day that begins at `midnight`: from that instant to
    /// exactly one day later, both ends counted. There is none when
    /// the later instant is beyond what a timestamp can hold.
    pub open spec fn of_midnight(midnight: int) -> Option<ReportWindow> {
        if midnight + DAY_SECONDS <= i64::MAX && i64::MIN <= midnight {
            Some(ReportWindow { low: midnight as i64, high: (midnight + DAY_SECONDS) as i64 })
        } else {
            None
        }
    }

    /// Whether a row starting at `instant` falls into the window.
    pub open spec fn covers(self, instant: int) -> bool {
        self.low <= instant <= self.high
    }

    /// The window of the day that begins at `midnight`.
    pub fn starting_at(midnight: i64) -> (window: Option<ReportWindow>)
        ensures
            window == ReportWindow::of_midnight(midnight as int),
    {
        if midnight <= i64::MAX - DAY_SECONDS {
            Some(ReportWindow { low: midnight, high: midnight + DAY_SECONDS })
        } else {
            None
        }
    }

    /// Whether a row starting at `instant` falls into the window.
    pub fn contains(&self, instant: i64) -> (b: bool)
        ensures
            b == self.covers(instant as int),
    {
        self.low <= instant && instant <= self.high
    }
}

/// A day's report: one entry per label that occurs, and the grand total.
#[derive(Debug)]
pub struct Report {
    entries: Vec<RecordTotal>,
    total: u128,
}

impl Report {
    /// No label occurs in two entries.
    #[verifier::type_invariant]
    closed spec fn distinct_labels(&self) -> bool {
        forall|j: int, k: int|
            0 <= j < k < self.entries@.len() ==> (#[trigger] self.entries@[j]).record@ != (
            #[trigger] self.entries@[k]).record@
    }

    /// Whether an entry is labelled `record`.
    closed spec fn has_entry(&self, record: Seq<char>) -> bool {
        exists|k: int| 0 <= k < self.entries@.len() && (#[trigger] self.entries@[k]).record@ == record
    }

    /// The place of the entry labelled `record`.
    closed spec fn entry_index(&self, record: Seq<char>) -> int {
        choose|k: int| 0 <= k < self.entries@.len() && (#[trigger] self.entries@[k]).record@ == record
    }
}

impl View for Report {
    type V = ReportView;

    closed spec fn view(&self) -> ReportView {
        ReportView {
            per_record: Map::new(
                |record: Seq<char>| self.has_entry(record),
                |record: Seq<char>| self.entries@[self.entry_index(record)].seconds as int,
            ),
            total: self.total as int,
        }
    }
}

/// The widest span that two timestamps can lie apart.
const MAX_SPAN: u128 = 0xffff_ffff_ffff_ffff;

/// Position of the entry labelled like `record`, if there is one.
fn find_entry(entries: &Vec<RecordTotal>, record: &String) -> (found: Option<usize>)
    ensures
        match found {
            Some(k) => k < entries@.len() && entries@[k as int].record@ == record@,
            None => forall|k: int| 0 <= k < entries@.len() ==> (#[trigger] entries@[k]).record@ != record@,
        },
{
    let mut k: usize = 0;
    while k < entries.len()
        invariant
            k <= entries@.len(),
            forall|j: int| 0 <= j < k ==> (#[trigger] entries@[j]).record@ != record@,
        decreases entries@.len() - k,
    {
        if entries[k].record == *record {
            return Some(k);
        }
        k = k + 1;
    }
    None
}

impl Report {
    /// Sums the rows of one window. Rows that are still open, or that start
    /// outside `[window.low, window.high]`, do not count. The answer is
    /// `None` exactly when a row that counts ends before it starts.
    pub fn of_rows(rows: &Vec<Task>, window: &ReportWindow) -> (report: Option<Report>)
        ensures
            report is Some <==> all_consistent(
                closed_in_range(table_of(rows@), window.low as int, window.high as int),
            ),
            report matches Some(r) ==> r@ == day_report(
                table_of(rows@),
                window.low as int,
                window.high as int,
            ),
    {
        let ghost table = table_of(rows@);
        let ghost low = window.low as int;
        let ghost high = window.high as int;
        let mut entries: Vec<RecordTotal> = Vec::new();
        let mut total: u128 = 0;
        let mut i: usize = 0;
        while i < rows.len()
            invariant
                i <= rows@.len(),
                table == table_of(rows@),
                low == window.low as int,
                high == window.high as int,
                all_consistent(closed_in_range(table.take(i as int), low, high)),
                total == total_elapsed(closed_in_range(table.take(i as int), low, high)),
                total <= i * MAX_SPAN,
                forall|j: int, k: int|
                    0 <= j < k < entries@.len() ==> (#[trigger] entries@[j]).record@ != (
                    #[trigger] entries@[k]).record@,
                forall|k: int|
                    0 <= k < entries@.len() ==> has_record(
                        closed_in_range(table.take(i as int), low, high),
                        (#[trigger] entries@[k]).record@,
                    ) && entries@[k].seconds == record_elapsed(
                        closed_in_range(table.take(i as int), low, high),
                        entries@[k].record@,
                    ),
                forall|record: Seq<char>| #[trigger]
                    has_record(closed_in_range(table.take(i as int), low, high), record)
                        ==> exists|k: int|
                        0 <= k < entries@.len() && (#[trigger] entries@[k]).record@ == record,
            decreases rows@.len() - i,
        {
            let row = &rows[i];
            let ghost before = closed_in_range(table.take(i as int), low, high);
            let ghost after = closed_in_range(table.take(i as int + 1), low, high);
            proof {
                assert(table.take(i as int + 1) =~= table.take(i as int).push(row@));
                crate::table::lemma_closed_in_range_push(table.take(i as int), row@, low, high);
            }
            if row.end.is_some() && window.contains(row.start) {
                match row.elapsed() {
                    None => {
                        proof {
                            assert(after.last() == row@);
                            crate::table::lemma_selection_of_prefix(table, i as int + 1, low, high);
                        }
                        return None;
                    },
                    Some(span) => {
                        let ghost old_entries = entries@;
                        let ghost place: int;
                        match find_entry(&entries, &row.record) {
                            Some(k) => {
                                proof {
                                    place = k as int;
                                    crate::table::lemma_elapsed_bounds(before, row@.record);
                                }
                                let sum: u128 = entries[k].seconds + span as u128;
                                entries[k].seconds = sum;
                            },
                            None => {
                                proof {
                                    place = entries@.len() as int;
                                    crate::table::lemma_absent_record(before, row@.record);
                                }
                                entries.push(
                                    RecordTotal { record: row.record.clone(), seconds: span as u128 },
                                );
                            },
                        }
                        proof {
                            assert(entries@[place].record@ == row@.record);
                            assert forall|j: int| 0 <= j < after.len() implies (
                            #[trigger] after[j]).consistent() by {
                                if j < before.len() {
                                    assert(after[j] == before[j]);
                                }
                            }
                            crate::table::lemma_elapsed_push(before, row@, row@.record);
                            assert forall|k: int| 0 <= k < entries@.len() implies has_record(
                                after,
                                (#[trigger] entries@[k]).record@,
                            ) && entries@[k].seconds == record_elapsed(
                                after,
                                entries@[k].record@,
                            ) by {
                                crate::table::lemma_elapsed_push(before, row@, entries@[k].record@);
                            }
                            assert forall|record: Seq<char>| #[trigger]
                                has_record(after, record) implies exists|k: int|
                                0 <= k < entries@.len() && (#[trigger] entries@[k]).record@
                                    == record by {
                                crate::table::lemma_elapsed_push(before, row@, record);
                                if row@.record != record {
                                    let k = choose|k: int|
                                        0 <= k < old_entries.len() && (
                                        #[trigger] old_entries[k]).record@ == record;
                                    assert(entries@[k].record@ == record);
                                }
                            }
                        }
                        total = total + span as u128;
                    },
                }
            }
            i = i + 1;
        }
        proof {
            assert(table.take(i as int) =~= table);
        }
        let report = Report { entries, total };
        proof {
            let selected = closed_in_range(table, low, high);
            assert forall|record: Seq<char>| report.has_entry(record) == has_record(
                selected,
                record,
            ) by {
                if report.has_entry(record) {
                    let k = report.entry_index(record);
                    assert(has_record(selected, report.entries@[k].record@));
                }
            }
            assert forall|record: Seq<char>| report.has_entry(record) implies report.entries@[
                report.entry_index(record)
            ].seconds == record_elapsed(selected, record) by {
                let k = report.entry_index(record);
                assert(report.entries@[k].record@ == record);
            }
            assert(report@.per_record =~= day_report(table, low, high).per_record);
        }
        Some(report)
    }
}

impl Report {
    /// Seconds of all labels together.
    pub fn total(&self) -> (seconds: u128)
        ensures
            seconds == self@.total,
    {
        self.total
    }

    /// Whether no label occurs at all.
    pub fn is_empty(&self) -> (b: bool)
        ensures
            b <==> self@.per_record.dom() =~= Set::<Seq<char>>::empty(),
    {
        proof {
            if self.entries@.len() > 0 {
                assert(self@.per_record.dom().contains(self.entries@[0].record@));
            }
        }
        self.entries.len() == 0
    }

    /// The entries: one per label of the report, and no label twice.
    pub fn entries(&self) -> (entries: &Vec<RecordTotal>)
        ensures
            forall|k: int|
                0 <= k < entries@.len() ==> self@.per_record.dom().contains(
                    (#[trigger] entries@[k]).record@,
                ) && self@.per_record[entries@[k].record@] == entries@[k].seconds,
            forall|record: Seq<char>| #[trigger]
                self@.per_record.dom().contains(record) ==> exists|k: int|
                    0 <= k < entries@.len() && (#[trigger] entries@[k]).record@ == record,
            forall|j: int, k: int|
                0 <= j < k < entries@.len() ==> (#[trigger] entries@[j]).record@ != (
                #[trigger] entries@[k]).record@,
    {
        proof {
            use_type_invariant(self);
            assert forall|k: int| 0 <= k < self.entries@.len() implies self@.per_record.dom().contains(
                (#[trigger] self.entries@[k]).record@,
            ) && self@.per_record[self.entries@[k].record@] == self.entries@[k].seconds by {
                let record = self.entries@[k].record@;
                let found = self.entry_index(record);
                assert(found == k) by {
                    if found < k {
                        assert(self.entries@[found].record@ != self.entries@[k].record@);
                    } else if k < found {
                        assert(self.entries@[k].record@ != self.entries@[found].record@);
                    }
                }
            }
        }
        &self.entries
    }

    /// Seconds spent on `record`, or `None` when the report has no such
    /// label.
    pub fn seconds_for(&self, record: &str) -> (seconds: Option<u128>)
        ensures
            seconds == (if self@.per_record.dom().contains(record@) {
                Some(self@.per_record[record@] as u128)
            } else {
                None
            }),
            seconds matches Some(s) ==> s == self@.per_record[record@],
    {
        let label = record.to_owned();
        let entries = self.entries();
        match find_entry(entries, &label) {
            Some(k) => Some(entries[k].seconds),
            None => None,
        }
    }
}

impl ReportWindow {
    /// What a report of this window asks of the table: the stopped rows that
    /// start within it.
    pub fn request(&self) -> (request: StoreRequest)
        ensures
            request == (StoreRequest::SelectClosedInRange { low: self.low, high: self.high }),
    {
        StoreRequest::SelectClosedInRange { low: self.low, high: self.high }
    }
}

/// What the table's reply to a window's request comes to. Rows make a
/// report, over those of them that are stopped and start within the window;
/// a day without such rows is a report too, an empty one. A reply without
/// rows is a storage failure, and so are rows among which one that counts
/// ends before it starts.
pub fn report_of_reply(reply: &StoreReply, window: &ReportWindow) -> (outcome: Result<
    Report,
    TimerError,
>)
    ensures
        outcome is Ok <==> (reply matches StoreReply::Rows { rows } && all_consistent(
            closed_in_range(table_of(rows@), window.low as int, window.high as int),
        )),
        outcome matches Ok(report) ==> (reply matches StoreReply::Rows { rows } && report@
            == day_report(table_of(rows@), window.low as int, window.high as int)),
        outcome matches Err(e) ==> e == TimerError::Storage,
{
    match reply {
        StoreReply::Rows { rows } => match Report::of_rows(rows, window) {
            Some(report) => Ok(report),
            None => Err(TimerError::Storage),
        },
        _ => Err(TimerError::Storage),
    }
}

/// What a faithful table answers to a window's request gives the report of
/// the whole table for that window.
pub proof fn lemma_faithful_reply(table: Seq<TaskView>, window: ReportWindow, reply: StoreReply)
    requires
        answers(
            table,
            StoreRequest::SelectClosedInRange { low: window.low, high: window.high },
            reply,
        ),
    ensures
        reply matches StoreReply::Rows { rows } && closed_in_range(
            table_of(rows@),
            window.low as int,
            window.high as int,
        ) == closed_in_range(table, window.low as int, window.high as int) && day_report(
            table_of(rows@),
            window.low as int,
            window.high as int,
        ) == day_report(table, window.low as int, window.high as int),
{
    crate::table::lemma_closed_in_range_twice(table, window.low as int, window.high as int);
}

/// The window of a day reaches from its midnight to the midnight after it,
/// both counted: a start is covered exactly when it is at least `midnight`
/// and at most `midnight + 86400`.
pub proof fn lemma_window_bounds(midnight: int, window: ReportWindow, start: int)
    requires
        ReportWindow::of_midnight(midnight) == Some(window),
    ensures
        window.covers(start) <==> midnight <= start <= midnight + 86400,
{
}

/// A row counts for a window exactly when it is stopped and starts within
/// the window, both ends counted: the rows that a report sums are those
/// rows of the table and no others.
pub proof fn lemma_window_membership(table: Seq<TaskView>, window: ReportWindow, row: TaskView)
    ensures
        closed_in_range(table, window.low as int, window.high as int).contains(row) <==> (
        table.contains(row) && row.is_closed() && window.covers(row.start)),
{
    crate::table::lemma_closed_in_range_rows(table, window.low as int, window.high as int);
}

/// A day without stopped rows in its window is no failure: its report has
/// no label and a total of zero.
pub proof fn lemma_empty_day(table: Seq<TaskView>, low: int, high: int)
    requires
        forall|i: int| 0 <= i < table.len() ==> !in_window(#[trigger] table[i], low, high),
    ensures
        closed_in_range(table, low, high) == Seq::<TaskView>::empty(),
        all_consistent(closed_in_range(table, low, high)),
        day_report(table, low, high).per_record == Map::<Seq<char>, int>::empty(),
        day_report(table, low, high).total == 0,
    decreases table.len(),
{
    if table.len() > 0 {
        let front = table.drop_last();
        assert forall|i: int| 0 <= i < front.len() implies !in_window(
            #[trigger] front[i],
            low,
            high,
        ) by {
            assert(front[i] == table[i]);
        }
        lemma_empty_day(front, low, high);
    }
}

/// A task that was started and never stopped counts for no report, whenever
/// it started: with or without the open row the same rows are summed.
pub proof fn lemma_open_row_does_not_count(table: Seq<TaskView>, i: int, low: int, high: int)
    requires
        0 <= i < table.len(),
        table[i].is_open(),
    ensures
        closed_in_range(table.remove(i), low, high) == closed_in_range(table, low, high),
        day_report(table.remove(i), low, high) == day_report(table, low, high),
{
    let before = table.take(i);
    let after = table.skip(i + 1);
    assert(table =~= before.push(table[i]) + after);
    assert(table.remove(i) =~= before + after);
    crate::table::lemma_closed_in_range_add(before.push(table[i]), after, low, high);
    crate::table::lemma_closed_in_range_add(before, after, low, high);
    crate::table::lemma_closed_in_range_push(before, table[i], low, high);
}

} // verus!
