//! Parser core for offline chat-archive exports: turns legacy-encoded HTML
//! pages into one ordered, deduplicated conversation record.
//!
//! The pipeline is: decode a page's bytes (a single-byte Cyrillic code page)
//! into text, locate the message elements of the page, resolve each message's
//! sender and timestamp from its header, extract attachment descriptors, and
//! finally merge all pages, sorted by page number, into a single chat.

pub mod chat;
pub mod dates;
pub mod dom;
pub mod errors;
pub mod message;
pub mod page;
pub mod slug;
pub mod text;
