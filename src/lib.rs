//! Parsing of the Linux `/proc/meminfo` text into a record of memory counters.
//!
//! The parser works on a byte buffer that the caller has already read; it
//! performs no I/O. Every recognized counter is stored in kilobytes, as the
//! kernel reports it, and a counter missing from the text stays zero.

pub mod laws;
pub mod mem_info;
pub mod parse;

pub use mem_info::{Field, MemInfo};
pub use parse::{parse_meminfo, ParseError};
