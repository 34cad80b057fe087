//! The decisions of `cargo asdev`, a launcher for the development tasks of a
//! repository: which tasks there are, which of them an invocation means,
//! which programs a task launches, and what to report and with which code to
//! exit once they have ended.
//!
//! Nothing here reads a file, asks the user or starts a process. The program
//! around this library does that, and hands over what it read or was told.

pub mod decimal;
pub mod dispatch;
pub mod executor;
pub mod registry;
pub mod tasks;
pub mod text;
pub mod version;
