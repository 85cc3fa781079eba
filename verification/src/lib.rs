//! Turns a time-tracking log into the figures of an activity report: the
//! entries of a reporting window cut at local midnights, their total
//! duration, how often each tag occurs, and the time spent on each day.

pub mod calendar;
pub mod clock_text;
pub mod days;
pub mod entries;
pub mod error;
pub mod grouper;
pub mod instant;
pub mod listing;
pub mod logo;
pub mod month;
pub mod splitter;
pub mod tag_counts;
pub mod tags;
pub mod text;
pub mod totals;
