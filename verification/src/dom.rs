//! The trusted boundary around the outside crates: the `tl` HTML parser,
//! which tokenizes a page and answers class and selector queries, and the
//! `encoding_rs` decoder for the archive's legacy Cyrillic code page.
//!
//! Everything here is believed, not verified: each wrapper's body only
//! makes the outside call and converts its result. All parsing logic on
//! what comes back lives in verified code.

use vstd::prelude::*;
use crate::errors::ChatError;

verus! {

/// The document object model of the `tl` crate; opaque to the verifier
/// and navigated only through the wrappers below.
#[verifier::external_type_specification]
#[verifier::external_body]
pub struct ExVDom<'a>(tl::VDom<'a>);

/// A handle naming one node of a `tl` document.
#[verifier::external_type_specification]
#[verifier::external_body]
pub struct ExNodeHandle(tl::NodeHandle);

/// What the windows-1251 decoder yields for a byte sequence.
pub uninterp spec fn cp1251_of(bytes: Seq<u8>) -> Seq<char>;

/// Relies on encoding_rs's `WINDOWS_1251.decode`: best-effort decoding of
/// the legacy Cyrillic code page. It never fails — unmappable bytes become
/// replacement characters — and the result depends on the bytes alone.
#[verifier::external_body]
pub fn decode_cp1251(bytes: &Vec<u8>) -> (r: String)
    ensures
        r@ == cp1251_of(bytes@),
        bytes@.len() == 0 ==> r@.len() == 0,
{
    let (text, _, _) = encoding_rs::WINDOWS_1251.decode(bytes);
    text.into_owned()
}

/// Relies on `tl::parse` with default options: tokenizes an HTML document.
/// It fails only when the input is too large for the parser's node index.
#[verifier::external_body]
pub fn dom_parse<'a>(input: &'a str) -> (r: Result<tl::VDom<'a>, ChatError>)
    ensures
        r is Err ==> r->Err_0 is MalformedDocument,
{
    match tl::parse(input, tl::ParserOptions::default()) {
        Ok(dom) => Ok(dom),
        Err(_) => Err(ChatError::MalformedDocument),
    }
}

/// Relies on tl's `VDom::get_elements_by_class_name`: handles of the
/// elements carrying the class, in document order.
#[verifier::external_body]
pub fn class_members(dom: &tl::VDom, class: &str) -> (r: Vec<tl::NodeHandle>) {
    dom.get_elements_by_class_name(class).collect()
}

/// Relies on tl's `Node::inner_text`: the node's text content; nothing
/// when the handle does not resolve in this document.
#[verifier::external_body]
pub fn node_inner_text(dom: &tl::VDom, h: &tl::NodeHandle) -> (r: Option<String>) {
    match h.get(dom.parser()) {
        Some(node) => Some(node.inner_text(dom.parser()).into_owned()),
        None => None,
    }
}

/// Relies on tl's `Attributes::get`: the value of the named attribute;
/// nothing when the handle is not a tag, lacks the attribute, or the
/// attribute carries no value.
#[verifier::external_body]
pub fn node_attr(dom: &tl::VDom, h: &tl::NodeHandle, name: &str) -> (r: Option<String>) {
    match h.get(dom.parser()).and_then(|node| node.as_tag()) {
        Some(tag) => match tag.attributes().get(name) {
            Some(Some(value)) => Some(value.as_utf8_str().into_owned()),
            _ => None,
        },
        None => None,
    }
}

/// Relies on tl's `HTMLTag::query_selector`: the first descendant of the
/// tag matching the selector, when there is one.
#[verifier::external_body]
pub fn query_first(dom: &tl::VDom, h: &tl::NodeHandle, selector: &str) -> (r: Option<
    tl::NodeHandle,
>) {
    match h.get(dom.parser()).and_then(|node| node.as_tag()) {
        Some(tag) => match tag.query_selector(dom.parser(), selector) {
            Some(mut iter) => iter.next(),
            None => None,
        },
        None => None,
    }
}

/// Relies on tl's `HTMLTag::query_selector`: every descendant of the tag
/// matching the selector, in document order; empty when the handle is not
/// a tag or the selector is invalid.
#[verifier::external_body]
pub fn query_all(dom: &tl::VDom, h: &tl::NodeHandle, selector: &str) -> (r: Vec<
    tl::NodeHandle,
>) {
    match h.get(dom.parser()).and_then(|node| node.as_tag()) {
        Some(tag) => match tag.query_selector(dom.parser(), selector) {
            Some(iter) => iter.collect(),
            None => Vec::new(),
        },
        None => Vec::new(),
    }
}

} // verus!
