//! Core of a single-user command-line task tracker.
//!
//! The library owns the in-memory task collection, its identifier
//! discipline, the filtered and sorted views, the command grammar of the
//! CLI, and the persisted JSON document's encoder and decoder.  File
//! handles, terminal colours and the interactive prompt live outside the
//! library and only exchange plain values with it.

pub mod chars;
pub mod cli;
pub mod clock;
pub mod codec;
pub mod error;
pub mod laws;
pub mod storage;
pub mod task;
pub mod todo_list;
