//! Calendar days and the archive of journal entries recorded on them.
//!
//! A `Day` is a date that exists; it is read from and written as `YYYY-MM-DD`.
//! The `Store` registers days and keeps the entries made on them, lists the
//! days in the order of the calendar, under a search text if one is given,
//! and hands out the entries of a day in the order of their making. What the
//! store holds and what its operations do is stated over the model in
//! `model`; `laws` proves what holds of every store.

pub mod calendar;
pub mod day;
pub mod decimal;
pub mod entry;
pub mod filtering;
pub mod laws;
pub mod model;
pub mod pattern;
pub mod projection;
pub mod search;
pub mod store;
