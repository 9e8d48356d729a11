//! Interpretation of a plain-text work log.
//!
//! The log is a line-oriented journal: day headers, free-text actions,
//! 12-hour timestamps, clock-in/clock-out markers, expense lines and
//! pleasure/pain prediction ratings.  This crate classifies each line into a
//! typed record, reconstructs clocked work sessions between paired markers,
//! rounds their durations to half hours, and aggregates prediction
//! statistics by ISO week.  Every function carries a contract that pins its
//! result down, verified with Verus.

pub mod classify;
pub mod dates;
pub mod pleasure_and_pain;
pub mod records;
pub mod render;
pub mod text;
pub mod time_reporting;
