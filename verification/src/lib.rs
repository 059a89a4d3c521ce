//! Core of a single-user task tracker: task ordering and selection,
//! parsing of human time expressions, overdue / due-soon status, and
//! reminder scheduling with a day-wrapping quiet-hours window.
//!
//! Persistence, terminal rendering and delivery of notifications are
//! external collaborators; this crate holds the verified logic they call.

pub mod models;
pub mod reminder;
pub mod selector;
pub mod store;
pub mod text;
pub mod timeparse;
