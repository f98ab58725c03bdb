//! A personal time tracker: the task table, the start/stop lifecycle and the
//! per-day report, with every rule stated as a contract and proved.
//!
//! The library does no input or output of its own. A command becomes a
//! request to the durable table (`lifecycle`, `report`), the caller carries
//! the request out, and the library says what the reply means. `store` holds
//! the requests, what a faithful table answers, and a table in memory that
//! serves them; `table` is the table as a mathematical value. `calendar`
//! resolves the day of a report to its window, `clock` reads the current
//! instant, and `text` writes durations out.

pub mod calendar;
pub mod clock;
pub mod error;
pub mod lifecycle;
pub mod report;
pub mod store;
pub mod table;
pub mod task;
pub mod text;
