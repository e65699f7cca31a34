//! Verified core of a weekly schedule cache refresher.
//!
//! The library computes ISO week windows from a calendar date, filters and
//! deduplicates raw schedule records into bookable classes, and builds the
//! cache keys and entries (with their fixed time-to-live) under which a run
//! persists each week's schedule.  Fetching over HTTP and writing to the
//! cache store are left to the surrounding application; this crate holds the
//! logic and its proofs.

pub mod cache;
pub mod date;
pub mod fetch;
pub mod schedule;
pub mod text;
pub mod window;
