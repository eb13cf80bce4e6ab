//! Capture of newline-delimited text from a raw byte stream.
//!
//! The library has three verified components: a line reassembler that
//! turns arbitrarily fragmented byte chunks into whole lines, a logging
//! session that matches each line against begin/end sentinels and decides
//! the file-lifecycle action to take, and the timestamped naming of each
//! session's output file. The caller owns the byte source, the files and
//! the mirror sink; the library owns every decision about them.

use vstd::prelude::*;

pub mod framing;
pub mod naming;
pub mod session;

pub use framing::LineReassembler;
pub use naming::ClockParts;
pub use naming::begin_session_paths;
pub use naming::session_paths;
pub use session::Action;
pub use session::LoggingSession;
pub use session::bytes_eq;

verus! {

/// Byte value of a line feed.
pub const NL: u8 = 10;

/// Byte value of a carriage return.
pub const CR: u8 = 13;

/// Byte value of NUL.
pub const NUL: u8 = 0;

} // verus!
