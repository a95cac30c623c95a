//! Segments a project's observation period into measurement windows, selects the
//! commits that fall into each window and rolls their diffs up into per-window
//! activity metrics.
//!
//! Dates, commits and diff lines are plain values here; reading them out of a
//! repository, and checking its tree out, is left to the caller.

// calendar and windows
pub mod calendar;
pub mod windows;
pub mod months;
pub mod phases;

// commits and their diffs
pub mod commits;
pub mod diff;
pub mod dev_stats;

// per-window metrics
pub mod string_set;
pub mod metrics;
pub mod rollup;
pub mod branches;
pub mod project;

// mailing lists
pub mod text;
pub mod emails;
pub mod mailing_list;
