//! The logic of five small text and filesystem tools: a line numbering
//! printer, a filtered filesystem walker, a bounded head reader, an adjacent
//! duplicate grouper and a line, word, byte and character counter.
//!
//! The caller opens files, reads bytes and walks directories. Everything
//! that is decided about those bytes and entries is decided here, as
//! functions from plain values to the text that a tool writes.

pub mod error;
pub mod input;
pub mod rcat;
pub mod report;
pub mod rfind;
pub mod rhead;
pub mod runiq;
pub mod rwc;
pub mod text;
