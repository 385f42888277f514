//! A planning journal: milestones, a backlog, and weeks of goals and days of
//! tasks, read from plain text into flat pools linked by indices, and written
//! back out.

pub mod classify;
pub mod date;
pub mod error;
pub mod journal;
pub mod render;
pub mod roundtrip;
pub mod section;
pub mod segment;
pub mod task;
