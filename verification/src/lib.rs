//! Parser for the textual debug logs that a GStreamer pipeline emits.
//!
//! [`entry::Entry::new`] turns one raw log line — ANSI SGR colour escapes
//! included — into a typed record, reporting exactly which field is missing
//! or malformed; [`sanitize::sanitize`] is the escape-stripping pass it
//! applies first.  [`stream::ParserIterator`] walks a sequence of lines,
//! silently skipping the ones that do not parse.  The laws that tie the
//! parser, the sanitizer and the rendering together are stated and proved
//! in [`laws`].

pub mod chars;
pub mod digits;
pub mod entry;
pub mod errors;
pub mod laws;
pub mod level;
pub mod location;
pub mod sanitize;
pub mod scan;
pub mod stream;
pub mod timestamp;

pub use entry::Entry;
pub use errors::{ParsingError, TimestampField, Token};
pub use level::DebugLevel;
pub use stream::ParserIterator;
