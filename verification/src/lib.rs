//! A hex-dump library: renders a byte stream as formatted
//! hexadecimal-and-ASCII text lines.
//!
//! `line` holds the line formatter; `driver` holds the bounded
//! streaming read plan and the full dump over an in-memory buffer.

pub mod driver;
pub mod line;
