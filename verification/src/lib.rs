//! A maildir-driven reply engine: parses RFC-822-style header blocks,
//! composes correctly threaded replies, wraps text to mailbox conventions,
//! and names the pure decisions of the maintenance loop.

pub mod chars;
pub mod compose;
pub mod header;
pub mod maintain;
pub mod parse;
pub mod wrap;

pub use chars::chars_to_string;
pub use chars::str_to_chars;
pub use compose::format_reply;
pub use compose::format_reply_with;
pub use compose::generate_message_id;
pub use compose::wrap_header;
pub use compose::ComposeError;
pub use header::Header;
pub use header::HeaderKind;
pub use parse::extract_to;
