//! A to-do list kept as plain text.
//!
//! The store is a text of one task per line, `description<TAB>status`. This
//! crate holds the task type, the text format, and the commands that take the
//! stored text to its next state. Reading and writing the file, and printing,
//! are left to the caller.

pub mod task;
pub mod format;
pub mod store;
