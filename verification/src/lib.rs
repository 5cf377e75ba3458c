//! A small task-tracking library.
//!
//! Tasks are kept as an ordered collection; each task has a unique name, a
//! free-form description, and a status that moves from `ToDo` to `Done`.
//! The collection is persisted as a single structured text document; the
//! encoding and decoding of that document are verified, as are the
//! operations that add, edit, tick, and remove tasks.

pub mod task;
pub mod codec;
pub mod encode;
pub mod decode;
pub mod chars;
pub mod todo;
pub mod laws;
