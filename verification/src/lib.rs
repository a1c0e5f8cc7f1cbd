//! Engine for organizing a picture-capture directory tree into per-day
//! folders.
//!
//! The engine scans a known root (two levels of subdirectories: year-month
//! buckets holding loose files), classifies each file by the "logical day"
//! derived from its modification time and a configurable day-boundary, and
//! relocates it into a date-named sibling folder. A cooperative tick protocol
//! drives periodic scans and honours a terminate command between ticks.

pub mod classifier;
pub mod control;
pub mod notify;
pub mod scan;
pub mod settings;
