//! A verified core for a minimal HTTP/1.1 server: a request parser, a
//! router that maps a request to a response (or to the file operation the
//! response needs), and a response formatter.
//!
//! Everything that touches the outside world — the TCP accept loop, the
//! socket reads and writes, and the filesystem behind the `files` routes —
//! lives outside this crate; the library works on plain byte buffers and
//! strings and states exactly what it produces.

pub mod laws;
pub mod request;
pub mod response;
pub mod strutil;

pub use request::{ParseError, Request};
pub use response::{Response, ResponseHeader, RouteOutcome};
pub use strutil::{byte_length, dec_string, split_lines, split_whitespace};
