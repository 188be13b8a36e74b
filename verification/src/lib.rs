//! Incremental HTTP/1.1 request-message parser.
//!
//! Raw bytes arrive in arbitrary-sized chunks; the parser recognizes the
//! request line, the header block and the provisional body as early as
//! possible, exposing every textual field as a byte range into the one
//! owned buffer instead of copying it out.

pub mod header_block;
pub mod offsets;
pub mod parser;
pub mod request;
pub mod request_line;
pub mod scan;
