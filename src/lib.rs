//! Overtime attribution engine.
//!
//! - `calendar`: the cyclic shift calendar and the regular hours of each date.
//! - `sessions`: gap-based reconstruction of work sessions from events;
//!   `reorder`: sorting events and why the arrival order does not matter.
//! - `overtime`: slicing a session into overtime seconds per local date.
//! - `attribution`: day totals and their split over projects by event share.
//! - `engine`: the batch pass from events to totals, and the overlay of
//!   fresh totals on those read back from the ledger.
//! - `archive`: the persistent day/month ledger and its merge policy.
//! - `jsonl`: which log files are read and how events get their source label.
//! - `format`, `report`, `text`, `assoc`: "H:MM" text, project display names,
//!   string search, and association lists seen as maps.

pub mod assoc;
pub mod text;
pub mod format;
pub mod calendar;
pub mod sessions;
pub mod reorder;
pub mod overtime;
pub mod attribution;
pub mod engine;
pub mod archive;
pub mod jsonl;
pub mod report;
