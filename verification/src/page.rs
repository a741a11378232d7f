//! One archive page: locate its message elements, parse each into a
//! structured message, and read the page-number indicator.

use vstd::prelude::*;
use crate::dom::{
    class_members, decode_cp1251, dom_parse, node_attr, node_inner_text, query_all, query_first,
};
use crate::errors::ChatError;
use crate::message::{parse_attachment_parts, parse_message_parts, Attachment, Message};
use crate::slug::spec_parse_uint;

verus! {

/// A message whose attachments field obeys the data model: absent rather
/// than empty.
pub open spec fn attachments_wf(m: Message) -> bool {
    m.attachments is Some ==> m.attachments->Some_0@.len() > 0
}

/// One parsed archive page: its number (1 when the page shows no
/// pagination control) and its messages in document order.
#[derive(Debug, PartialEq, Eq)]
pub struct VkPage {
    pub page_number: usize,
    pub message_items: Vec<Message>,
}

/// Read the page number from the selected pagination link's text: absent
/// text means a single-page conversation, page 1; non-numeric text is
/// rejected with [`ChatError::MalformedPageNumber`] carrying it.
pub fn parse_page_number(text: Option<String>) -> (r: Result<usize, ChatError>)
    ensures
        ({
            match text {
                None => r == Ok::<usize, ChatError>(1usize),
                Some(t) => {
                    match spec_parse_uint(t@) {
                        Some(n) => {
                            if n <= usize::MAX as int {
                                r is Ok && r->Ok_0 == n
                            } else {
                                r is Err && r->Err_0 is MalformedPageNumber
                                    && r->Err_0->MalformedPageNumber_0@ == t@
                            }
                        },
                        None => r is Err && r->Err_0 is MalformedPageNumber
                            && r->Err_0->MalformedPageNumber_0@ == t@,
                    }
                },
            }
        }),
{
    match text {
        None => Ok(1),
        Some(t) => {
            let tv = crate::text::chars_vec(t.as_str());
            proof {
                assert(tv@.subrange(0, tv@.len() as int) =~= tv@);
                if spec_parse_uint(tv@) is Some {
                    crate::text::lemma_digits_value_nonneg(tv@);
                }
            }
            match crate::slug::parse_uint_chars(&tv, 0, tv.len()) {
                Some(n) => Ok(n),
                None => Err(ChatError::MalformedPageNumber(t)),
            }
        },
    }
}

/// Parse one message element: its "data-id" attribute, its header — the
/// sub-element structurally required on every message box — with the
/// header's first link, its inner text, and its attachment elements.
/// A link without a target counts as no link, so the self-reference
/// fallback applies.
pub fn parse_message(dom: &tl::VDom, h: &tl::NodeHandle) -> (r: Result<Message, ChatError>)
    ensures
        r is Ok ==> attachments_wf(r->Ok_0),
{
    let data_id = node_attr(dom, h, "data-id");
    let header = match query_first(dom, h, ".message__header") {
        Some(hh) => hh,
        None => {
            return Err(ChatError::MissingHeader);
        },
    };
    let link_href: Option<String> = match query_first(dom, &header, "a") {
        Some(l) => node_attr(dom, &l, "href"),
        None => None,
    };
    let inner: String = match node_inner_text(dom, h) {
        Some(t) => t,
        None => {
            return Err(ChatError::MalformedDocument);
        },
    };
    let att_handles = query_all(dom, h, ".attachment");
    let attachments: Option<Vec<Attachment>> = if att_handles.len() == 0 {
        None
    } else {
        let mut list: Vec<Attachment> = Vec::new();
        let mut i: usize = 0;
        while i < att_handles.len()
            invariant
                list@.len() == i,
                i <= att_handles@.len(),
            decreases att_handles@.len() - i,
        {
            let ah = &att_handles[i];
            let description: Option<String> = match query_first(dom, ah,
                ".attachment__description") {
                Some(dh) => node_inner_text(dom, &dh),
                None => None,
            };
            let link: Option<String> = match query_first(dom, ah, ".attachment__link") {
                Some(lh) => node_inner_text(dom, &lh),
                None => None,
            };
            match parse_attachment_parts(description, link) {
                Ok(a) => list.push(a),
                Err(e) => {
                    return Err(e);
                },
            }
            i = i + 1;
        }
        Some(list)
    };
    match parse_message_parts(data_id.as_ref(), link_href.as_ref(), inner.as_str(), attachments) {
        Ok(m) => Ok(m),
        Err(e) => Err(e),
    }
}

/// Parse one decoded archive page: every element carrying the "message"
/// class, in document order, and the selected pagination link. The first
/// failing message aborts the page — there is no partial-page result.
pub fn parse_text(input: &str) -> (r: Result<VkPage, ChatError>)
    ensures
        r is Ok ==> forall|k: int|
            0 <= k < r->Ok_0.message_items@.len() ==> attachments_wf(
                #[trigger] r->Ok_0.message_items@[k],
            ),
{
    let dom = match dom_parse(input) {
        Ok(d) => d,
        Err(e) => {
            return Err(e);
        },
    };
    let handles = class_members(&dom, "message");
    let mut items: Vec<Message> = Vec::new();
    let mut i: usize = 0;
    while i < handles.len()
        invariant
            i <= handles@.len(),
            forall|k: int| 0 <= k < items@.len() ==> attachments_wf(#[trigger] items@[k]),
        decreases handles@.len() - i,
    {
        match parse_message(&dom, &handles[i]) {
            Ok(m) => items.push(m),
            Err(e) => {
                return Err(e);
            },
        }
        i = i + 1;
    }
    let pagination = class_members(&dom, "pg_lnk_sel");
    let page_text: Option<String> = if pagination.len() == 0 {
        None
    } else {
        node_inner_text(&dom, &pagination[0])
    };
    let page_number = match parse_page_number(page_text) {
        Ok(n) => n,
        Err(e) => {
            return Err(e);
        },
    };
    Ok(VkPage { page_number, message_items: items })
}

/// Decode one archive file's bytes from the legacy Cyrillic code page and
/// parse the decoded text as a page.
pub fn parse_page_bytes(bytes: &Vec<u8>) -> (r: Result<VkPage, ChatError>)
    ensures
        r is Ok ==> forall|k: int|
            0 <= k < r->Ok_0.message_items@.len() ==> attachments_wf(
                #[trigger] r->Ok_0.message_items@[k],
            ),
{
    let text = decode_cp1251(bytes);
    parse_text(text.as_str())
}

} // verus!
