//! Error kinds of the extraction pipeline. Every error aborts the whole
//! run: there is no partial-page or partial-chat result.

use vstd::prelude::*;

verus! {

/// What can go wrong while turning archive pages into a chat record.
/// Variants that point at a concrete input fragment carry it, so that a
/// format mismatch can be diagnosed.
#[derive(Debug, Clone, PartialEq, Eq)]
pub enum ChatError {
    /// The markup could not be tokenized at all.
    MalformedDocument,
    /// The selected pagination link held the given non-numeric text.
    MalformedPageNumber(String),
    /// A message element lacks a numeric "data-id" attribute.
    MissingMessageId,
    /// A message element lacks its header sub-element.
    MissingHeader,
    /// A message's text does not decompose into header and body segments.
    MalformedHeaderText,
    /// The given profile-URL slug holds no usable numeric identifier.
    UnrecognizedSlug(String),
    /// The given date/time text does not match the expected shape.
    UnparseableDateTime(String),
    /// An attachment element lacks its description sub-element.
    MissingAttachmentDescription,
    /// The given text is not a signed numeric chat identifier.
    InvalidChatId(String),
}

} // verus!
