//! A synchronous bridge to a command-line debugger's machine interface.
//!
//! A caller such as a fuzzer wants to run a target under the debugger, feed it
//! an input, and learn how it ended: a normal exit, an exit code, or a signal.
//! This library holds everything that is decided on the way:
//!
//! - [`transport`]: lines written to the debugger, and lines read from it up to
//!   a line that starts with a given prefix;
//! - [`bridge`]: the session, that is which command is sent when, which reply
//!   is waited for, and when the target is killed;
//! - [`parsing`]: the debugger's stop record, turned into a [`parsing::StopReason`];
//! - [`de_octal`]: numbers that a record holds as strings, octal or decimal;
//! - [`json`]: the members of a JSON object, read with `serde_json`;
//! - [`text`]: helpers on characters.
//!
//! The library does no input or output. The owner of the debugger process moves
//! text between the process and the session, and calls the session again
//! whenever it reported that it had to wait.

pub mod bridge;
pub mod de_octal;
pub mod json;
pub mod parsing;
pub mod text;
pub mod transport;

pub use bridge::Gdb;
