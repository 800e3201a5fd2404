//! Verified core of a personal day planner: a backlog of tasks rated by
//! importance and difficulty, a shortlist fitted to the time of day, and a
//! timer that measures how far an estimate was off.
//!
//! - [`task`]: a task and the line that stands for it.
//! - [`repository`]: the backlog as texts of such lines, one text for each
//!   category.
//! - [`day_section`]: the sections of the day and the schedule that tells
//!   which one a time falls into.
//! - [`ranking`]: the order in which tasks are to be done.
//! - [`quickfix`]: the ranked shortlist for the section of the day.
//! - [`timer`]: the timer and its sessions.
//! - [`config`]: the settings.
//! - [`text`]: strings as sequences of characters.
//!
//! Nothing here reads a clock or a file: times and texts are handed in, and
//! what is to be kept is handed back.

pub mod config;
pub mod day_section;
pub mod quickfix;
pub mod ranking;
pub mod repository;
pub mod task;
pub mod text;
pub mod timer;
