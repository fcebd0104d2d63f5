//! Core state of a minimal to-do list application: an ordered list of tasks,
//! a pending text input, and a display filter, together with the transition
//! function that applies user events to that state.
//!
//! The GUI shell that renders the state and feeds events back in lives
//! outside this crate; everything here is plain verified logic.

pub mod todo_item;
pub mod todo_list;
