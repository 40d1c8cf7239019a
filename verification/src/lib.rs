//! A small task tracker: an ordered store of tasks with sequential ids, and
//! the line-oriented text format that keeps it between runs.

pub mod command;
pub mod format;
pub mod format_laws;
pub mod store;
pub mod store_laws;
pub mod task;
pub mod text;
pub mod text_laws;
