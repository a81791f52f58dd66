//! Age-based retention for dated backup archives.
//!
//! A backup is an archive whose name starts with its calendar date, written
//! `YYYYMMDD`. The library sorts a list of such backups into a calendar of
//! year, month and day slots, chooses a retention policy for every month by
//! its age in months, and returns the backups that the policy gives up.
//! Listing the backups and deleting them is left to the caller.

pub mod backup;
pub mod calendar;
pub mod date;
pub mod dispatch;
pub mod plan;
pub mod policy;
pub mod prune;
pub mod read;
pub mod source;
pub mod today;
