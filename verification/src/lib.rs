//! Finding stale, oversized or pattern-matched files and deciding what may be
//! done with them: records of scanned files, the rules that select among them,
//! and the decisions behind delete, archive and trash.
//!
//! No file is read, written, moved or removed here. A caller walks the tree
//! and hands over what it found; it gets back records, selections and
//! decisions, and carries the decisions out. All that the library asks of
//! the machine itself is the system clock; the offset of local time is
//! handed in like everything else.

pub mod actions;
pub mod clock;
pub mod paths;
pub mod pattern;
pub mod rules;
pub mod scanner;
pub mod session;
pub mod sorting;
pub mod tally;
pub mod text;
