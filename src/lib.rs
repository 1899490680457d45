//! Editing, filtering and analysing colon-separated directory lists such as `PATH`.
//!
//! The library works on plain strings: whatever needs the file system (whether an
//! entry is a directory, its canonical form, the files it holds) is looked up by the
//! caller and handed in as values.

pub mod list;
pub mod parse;
pub mod command;
pub mod edit;
pub mod post;
pub mod analyze;
pub mod laws;
