//! Lesson gating, quiz grading and progress bookkeeping for a terminal SQL course.

pub mod curriculum;
pub mod gate;
pub mod models;
pub mod quiz;
pub mod text;
pub mod ui;
