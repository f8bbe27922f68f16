//! A verified core for a personal task tracker: deadline expressions,
//! task records, an in-memory task store with filtered listings, and the
//! rule that picks the next task to work on.
//!
//! - [`calendar`]: dates, day numbers and days of the week.
//! - [`deadline`]: the expressions that name a deadline, and how far off
//!   a deadline is.
//! - [`task`]: tasks, difficulties, identifiers and stored rows.
//! - [`db`]: the store: adding, updating, completing, removing, finding
//!   and listing tasks.
//! - [`theorems`]: what holds of listings, removals, updates and rows.
//! - [`display`] and [`cli`]: the columns of the task table and the checks
//!   on command-line values.
//! - [`text`], [`paint`], [`error`]: character sequences, terminal colours
//!   and the faults of a task's fields.

pub mod calendar;
pub mod cli;
pub mod db;
pub mod deadline;
pub mod display;
pub mod error;
pub mod paint;
pub mod task;
pub mod text;
pub mod theorems;
