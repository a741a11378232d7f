//! One chat message: its data model, and the parsing of a message's plain
//! parts — the "data-id" attribute text, the header link's target, the
//! element's inner text and the already-extracted attachments — into a
//! structured record.
//!
//! A message's inner text decomposes at double-space separators: the text
//! before the first separator is decorative, the segment after it is the
//! header text (display name, a comma, the date), and the next segment is
//! the body. The header text is split at its last `", "`; what follows is
//! the raw date/time text.

use vstd::prelude::*;
use crate::dates::{parse_date_time, spec_normalize_date};
use crate::errors::ChatError;
use crate::slug::{parse_from_id, spec_from_id, spec_parse_uint};
use crate::text::{chars_vec, is_space, is_space_char};

verus! {

/// Fixed additive correction, in seconds, between the archive's displayed
/// local time and the timestamp convention of the output format: the
/// displayed time is five hours behind.
pub const TIME_ZONE_CORRECTION: i64 = 18000;

/// Substitute for the profile link on messages the archive owner wrote:
/// the archive omits the self-link.
pub open spec fn spec_self_url() -> Seq<char> {
    "https://vk.com/id0"@
}

/// An attachment: a description and, when the archive gives one, a link.
#[derive(Debug, Clone, PartialEq, Eq)]
pub struct Attachment {
    pub description: String,
    pub link: Option<String>,
}

/// One parsed message. `from_id` is negative exactly for community/group
/// senders; `date` is in Unix seconds with the timezone correction already
/// applied; `attachments` is absent — not empty — for a message without
/// attachment elements.
#[derive(Debug, Clone, PartialEq, Eq)]
pub struct Message {
    pub id: usize,
    pub from_id: isize,
    pub date: i64,
    pub message_text: String,
    pub attachments: Option<Vec<Attachment>>,
}

/// Index of the last `", "` of `s`; `-1` when there is none.
pub open spec fn last_comma_sp(s: Seq<char>) -> int
    decreases s.len(),
{
    if s.len() < 2 {
        -1
    } else if s[s.len() - 2] == ',' && s[s.len() - 1] == ' ' {
        s.len() - 2
    } else {
        last_comma_sp(s.drop_last())
    }
}

/// First position at or after `i` where a double-space separator starts;
/// `s.len()` when there is none.
pub open spec fn first_sep_from(s: Seq<char>, i: int) -> int
    decreases s.len() - i when 0 <= i <= s.len()
{
    if i + 2 > s.len() {
        s.len() as int
    } else if s[i] == ' ' && s[i + 1] == ' ' {
        i
    } else {
        first_sep_from(s, i + 1)
    }
}

/// First index at or after `i` holding a non-space; `s.len()` if none.
pub open spec fn trim_start_from(s: Seq<char>, i: int) -> int
    decreases s.len() - i when 0 <= i <= s.len()
{
    if i >= s.len() {
        s.len() as int
    } else if is_space(s[i]) {
        trim_start_from(s, i + 1)
    } else {
        i
    }
}

/// One past the last non-space strictly before `j`; `0` if none.
pub open spec fn trim_end_before(s: Seq<char>, j: int) -> int
    decreases j when 0 <= j <= s.len()
{
    if j <= 0 {
        0
    } else if is_space(s[j - 1]) {
        trim_end_before(s, j - 1)
    } else {
        j
    }
}

/// `s` with leading and trailing whitespace removed.
pub open spec fn spec_trimmed(s: Seq<char>) -> Seq<char> {
    let a = trim_start_from(s, 0);
    let b = trim_end_before(s, s.len() as int);
    if a <= b {
        s.subrange(a, b)
    } else {
        Seq::<char>::empty()
    }
}

/// The header text segment and the trimmed body segment of a message's
/// inner text: the text between the first and second double-space
/// separator, and the text from there to the third (or the end), trimmed.
/// `None` when fewer than two separators exist.
pub open spec fn spec_message_segments(s: Seq<char>) -> Option<(Seq<char>, Seq<char>)> {
    let j1 = first_sep_from(s, 0);
    if j1 == s.len() {
        None
    } else {
        let j2 = first_sep_from(s, j1 + 2);
        if j2 == s.len() {
            None
        } else {
            let j3 = first_sep_from(s, j2 + 2);
            Some((s.subrange(j1 + 2, j2), spec_trimmed(s.subrange(j2 + 2, j3))))
        }
    }
}

/// Sender id and corrected timestamp a header denotes, when everything
/// resolves; mirrors the checks of `resolve_header` in order.
pub open spec fn spec_resolve_ids(link: Option<Seq<char>>, header: Seq<char>) -> Option<
    (int, int),
> {
    let href = match link {
        Some(h) => h,
        None => spec_self_url(),
    };
    if href.len() < 15 {
        None
    } else {
        match spec_from_id(href.skip(15)) {
            None => None,
            Some(fid) => {
                if !(-(isize::MAX as int) <= fid <= isize::MAX as int) {
                    None
                } else {
                    let j = last_comma_sp(header);
                    if j < 0 {
                        None
                    } else {
                        match spec_normalize_date(header.skip(j + 2)) {
                            None => None,
                            Some(ts) => Some((fid, ts + TIME_ZONE_CORRECTION)),
                        }
                    }
                }
            },
        }
    }
}

/// Resolve a message header into `(from_id, date)`.
///
/// The sender id comes from the first link's target — or, when the archive
/// omitted the self-link, from the fixed self-reference URL — with its
/// fifteen-character scheme-and-host prefix stripped. The date comes from
/// the text after the last `", "` of the header text, normalized and then
/// shifted by [`TIME_ZONE_CORRECTION`].
pub fn resolve_header(link_href: Option<&String>, header_text: &str) -> (r: Result<
    (isize, i64),
    ChatError,
>)
    ensures
        ({
            let href = match link_href {
                Some(h) => h@,
                None => spec_self_url(),
            };
            let slugged = spec_from_id(href.skip(15));
            let j = last_comma_sp(header_text@);
            if href.len() < 15 {
                r is Err && r->Err_0 is UnrecognizedSlug && r->Err_0->UnrecognizedSlug_0@
                    == href
            } else if slugged is None || !(-(isize::MAX as int) <= slugged->Some_0 <= isize::MAX
                as int) {
                r is Err && r->Err_0 is UnrecognizedSlug && r->Err_0->UnrecognizedSlug_0@
                    == href.skip(15)
            } else if j < 0 {
                r is Err && r->Err_0 is MalformedHeaderText
            } else if spec_normalize_date(header_text@.skip(j + 2)) is None {
                r is Err && r->Err_0 is UnparseableDateTime
                    && r->Err_0->UnparseableDateTime_0@ == header_text@.skip(j + 2)
            } else {
                &&& r is Ok
                &&& Some((r->Ok_0.0 as int, r->Ok_0.1 as int)) == spec_resolve_ids(
                    match link_href {
                        Some(h) => Some(h@),
                        None => None,
                    },
                    header_text@,
                )
            }
        }),
{
    let href_str: &str = match link_href {
        Some(h) => h.as_str(),
        None => "https://vk.com/id0",
    };
    let href_len = href_str.unicode_len();
    if href_len < 15 {
        return Err(ChatError::UnrecognizedSlug(href_str.to_owned()));
    }
    let slug_str = href_str.substring_char(15, href_len);
    let from_id = match parse_from_id(slug_str) {
        Ok(v) => v,
        Err(e) => {
            return Err(e);
        },
    };
    let hv = chars_vec(header_text);
    let j = match find_last_comma_sp(&hv) {
        Some(j) => j,
        None => {
            return Err(ChatError::MalformedHeaderText);
        },
    };
    let hlen = header_text.unicode_len();
    let date_str = header_text.substring_char(j + 2, hlen);
    match parse_date_time(date_str) {
        Ok(ts) => Ok((from_id, ts + TIME_ZONE_CORRECTION)),
        Err(e) => Err(e),
    }
}

/// Position of the last `", "` of `v`.
fn find_last_comma_sp(v: &Vec<char>) -> (r: Option<usize>)
    ensures
        ({
            let j = last_comma_sp(v@);
            if j < 0 {
                r is None
            } else {
                r == Some(j as usize) && j + 2 <= v@.len()
            }
        }),
{
    let mut j: usize = v.len();
    proof {
        assert(v@.take(v@.len() as int) =~= v@);
        lemma_last_comma_sp_range(v@);
    }
    while j >= 2
        invariant
            j <= v@.len(),
            last_comma_sp(v@.take(j as int)) == last_comma_sp(v@),
        decreases j,
    {
        if v[j - 2] == ',' && v[j - 1] == ' ' {
            proof {
                let t = v@.take(j as int);
                assert(t[t.len() - 2] == v@[j - 2] && t[t.len() - 1] == v@[j - 1]);
            }
            return Some(j - 2);
        }
        proof {
            let t = v@.take(j as int);
            assert(t[t.len() - 2] == v@[j - 2] && t[t.len() - 1] == v@[j - 1]);
            assert(t.drop_last() =~= v@.take(j - 1));
        }
        j = j - 1;
    }
    None
}

/// `last_comma_sp` stays within bounds.
proof fn lemma_last_comma_sp_range(s: Seq<char>)
    ensures
        -1 <= last_comma_sp(s),
        last_comma_sp(s) >= 0 ==> last_comma_sp(s) <= s.len() - 2,
    decreases s.len(),
{
    if s.len() >= 2 && !(s[s.len() - 2] == ',' && s[s.len() - 1] == ' ') {
        lemma_last_comma_sp_range(s.drop_last());
    }
}

/// End of the double-space-free run starting at `i`.
fn scan_sep(v: &Vec<char>, i: usize) -> (r: usize)
    requires
        i <= v@.len(),
    ensures
        r == first_sep_from(v@, i as int),
        i <= r <= v@.len(),
        r < v@.len() ==> r + 2 <= v@.len(),
    decreases v@.len() - i,
{
    proof {
        lemma_first_sep_range(v@, i as int);
    }
    if v.len() - i >= 2 {
        if v[i] == ' ' && v[i + 1] == ' ' {
            return i;
        }
        return scan_sep(v, i + 1);
    }
    v.len()
}

/// `first_sep_from` stays within bounds and lands on a separator.
proof fn lemma_first_sep_range(s: Seq<char>, i: int)
    requires
        0 <= i <= s.len(),
    ensures
        i <= first_sep_from(s, i) <= s.len(),
        first_sep_from(s, i) < s.len() ==> first_sep_from(s, i) + 2 <= s.len(),
    decreases s.len() - i,
{
    if i + 2 <= s.len() && !(s[i] == ' ' && s[i + 1] == ' ') {
        lemma_first_sep_range(s, i + 1);
    }
}

/// From `i` on, everything up to `trim_start_from` is whitespace and the
/// landing character (if any) is not.
proof fn lemma_trim_start(s: Seq<char>, i: int)
    requires
        0 <= i <= s.len(),
    ensures
        i <= trim_start_from(s, i) <= s.len(),
        trim_start_from(s, i) < s.len() ==> !is_space(s[trim_start_from(s, i)]),
        forall|k: int| i <= k < trim_start_from(s, i) ==> is_space(#[trigger] s[k]),
    decreases s.len() - i,
{
    if i < s.len() && is_space(s[i]) {
        lemma_trim_start(s, i + 1);
    }
}

/// Everything from `trim_end_before` up to `j` is whitespace and the
/// character before it (if any) is not.
proof fn lemma_trim_end(s: Seq<char>, j: int)
    requires
        0 <= j <= s.len(),
    ensures
        0 <= trim_end_before(s, j) <= j,
        trim_end_before(s, j) > 0 ==> !is_space(s[trim_end_before(s, j) - 1]),
        forall|k: int| trim_end_before(s, j) <= k < j ==> is_space(#[trigger] s[k]),
    decreases j,
{
    if j > 0 && is_space(s[j - 1]) {
        lemma_trim_end(s, j - 1);
    }
}

/// Build one message from its plain parts: the "data-id" attribute text
/// (when the element had one), the header link's target (when the header
/// had a link), the element's full inner text, and the attachments already
/// extracted from it.
///
/// The message id must be the attribute's digits; the inner text must
/// decompose into header and body segments; the header must resolve to a
/// sender and a date. The attachments option is passed through exactly:
/// a message with no attachment elements keeps an absent — not empty —
/// attachments field.
pub fn parse_message_parts(
    data_id: Option<&String>,
    link_href: Option<&String>,
    inner_text: &str,
    attachments: Option<Vec<Attachment>>,
) -> (r: Result<Message, ChatError>)
    ensures
        ({
            let idv = match data_id {
                Some(t) => spec_parse_uint(t@),
                None => None,
            };
            let segs = spec_message_segments(inner_text@);
            let link = match link_href {
                Some(h) => Some(h@),
                None => None,
            };
            let href = match link_href {
                Some(h) => h@,
                None => spec_self_url(),
            };
            let slugged = spec_from_id(href.skip(15));
            if idv is None || idv->Some_0 > usize::MAX as int {
                r is Err && r->Err_0 is MissingMessageId
            } else if segs is None {
                r is Err && r->Err_0 is MalformedHeaderText
            } else if href.len() < 15 {
                r is Err && r->Err_0 is UnrecognizedSlug && r->Err_0->UnrecognizedSlug_0@
                    == href
            } else if slugged is None || !(-(isize::MAX as int) <= slugged->Some_0 <= isize::MAX
                as int) {
                r is Err && r->Err_0 is UnrecognizedSlug && r->Err_0->UnrecognizedSlug_0@
                    == href.skip(15)
            } else if last_comma_sp(segs->Some_0.0) < 0 {
                r is Err && r->Err_0 is MalformedHeaderText
            } else if spec_normalize_date(
                segs->Some_0.0.skip(last_comma_sp(segs->Some_0.0) + 2),
            ) is None {
                r is Err && r->Err_0 is UnparseableDateTime
                    && r->Err_0->UnparseableDateTime_0@ == segs->Some_0.0.skip(
                    last_comma_sp(segs->Some_0.0) + 2,
                )
            } else {
                &&& r is Ok
                &&& r->Ok_0.id == idv->Some_0
                &&& Some((r->Ok_0.from_id as int, r->Ok_0.date as int)) == spec_resolve_ids(
                    link,
                    segs->Some_0.0,
                )
                &&& r->Ok_0.message_text@ == segs->Some_0.1
                &&& r->Ok_0.attachments == attachments
            }
        }),
{
    let id: usize = match data_id {
        None => {
            return Err(ChatError::MissingMessageId);
        },
        Some(t) => {
            let tv = chars_vec(t.as_str());
            proof {
                assert(tv@.subrange(0, tv@.len() as int) =~= tv@);
                if spec_parse_uint(tv@) is Some {
                    crate::text::lemma_digits_value_nonneg(tv@);
                }
            }
            match crate::slug::parse_uint_chars(&tv, 0, tv.len()) {
                None => {
                    return Err(ChatError::MissingMessageId);
                },
                Some(n) => n,
            }
        },
    };
    let v = chars_vec(inner_text);
    let n = v.len();
    let j1 = scan_sep(&v, 0);
    if j1 == n {
        return Err(ChatError::MalformedHeaderText);
    }
    let j2 = scan_sep(&v, j1 + 2);
    if j2 == n {
        return Err(ChatError::MalformedHeaderText);
    }
    let j3 = scan_sep(&v, j2 + 2);
    let header_str = inner_text.substring_char(j1 + 2, j2);
    let (from_id, date) = match resolve_header(link_href, header_str) {
        Ok(p) => p,
        Err(e) => {
            return Err(e);
        },
    };
    let ghost body = v@.subrange(j2 + 2, j3 as int);
    let mut a: usize = j2 + 2;
    while a < j3 && is_space_char(v[a])
        invariant
            j2 + 2 <= a <= j3 <= v@.len(),
            body == v@.subrange(j2 + 2, j3 as int),
            forall|k: int| j2 + 2 <= k < a ==> is_space(#[trigger] v@[k]),
        decreases j3 - a,
    {
        a = a + 1;
    }
    let mut b: usize = j3;
    while b > a && is_space_char(v[b - 1])
        invariant
            j2 + 2 <= a <= b <= j3 <= v@.len(),
            body == v@.subrange(j2 + 2, j3 as int),
            forall|k: int| b <= k < j3 ==> is_space(#[trigger] v@[k]),
        decreases b,
    {
        b = b - 1;
    }
    proof {
        lemma_trim_start(body, 0);
        lemma_trim_end(body, body.len() as int);
        assert(forall|k: int| 0 <= k < body.len() ==> body[k] == v@[j2 + 2 + k]);
        lemma_trim_unique(body, a - (j2 + 2), b - (j2 + 2));
        assert(v@.subrange(a as int, b as int) =~= body.subrange(
            a - (j2 + 2),
            b - (j2 + 2),
        ));
        if a >= b {
            assert(v@.subrange(a as int, a as int) =~= Seq::<char>::empty());
        }
    }
    let message_text: String = if a < b {
        inner_text.substring_char(a, b).to_owned()
    } else {
        inner_text.substring_char(a, a).to_owned()
    };
    Ok(Message { id, from_id, date, message_text, attachments })
}

/// A scan that stops at the first non-space from the left and from the
/// right lands exactly on the trim bounds.
proof fn lemma_trim_unique(s: Seq<char>, a: int, b: int)
    requires
        0 <= a <= s.len(),
        a <= b <= s.len(),
        forall|k: int| 0 <= k < a ==> is_space(#[trigger] s[k]),
        a < s.len() ==> (a == b || !is_space(s[a])),
        forall|k: int| b <= k < s.len() ==> is_space(#[trigger] s[k]),
        b > 0 ==> (a == b || !is_space(s[b - 1])),
    ensures
        a == b ==> spec_trimmed(s).len() == 0,
        a < b ==> spec_trimmed(s) == s.subrange(a, b),
{
    lemma_trim_start(s, 0);
    lemma_trim_end(s, s.len() as int);
    let ts = trim_start_from(s, 0);
    let te = trim_end_before(s, s.len() as int);
    if a == b {
        assert(forall|k: int| 0 <= k < s.len() ==> is_space(#[trigger] s[k]));
        assert(ts == s.len());
        if ts <= te {
            assert(spec_trimmed(s) =~= s.subrange(ts, te));
        }
    } else {
        assert(!is_space(s[a]) && !is_space(s[b - 1]));
        assert(ts == a) by {
            if ts < a {
                assert(is_space(s[ts]));
            }
            if ts > a {
                assert(is_space(s[a]));
            }
        }
        assert(te == b) by {
            if te > b {
                assert(is_space(s[te - 1]));
            }
            if te < b {
                assert(is_space(s[b - 1]));
            }
        }
    }
}

/// Extract one attachment from its plain parts: the description element's
/// text — structurally required — and the link element's text, if any.
pub fn parse_attachment_parts(description: Option<String>, link: Option<String>) -> (r: Result<
    Attachment,
    ChatError,
>)
    ensures
        ({
            match description {
                None => r is Err && r->Err_0 is MissingAttachmentDescription,
                Some(d) => r is Ok && r->Ok_0.description == d && r->Ok_0.link == link,
            }
        }),
{
    match description {
        None => Err(ChatError::MissingAttachmentDescription),
        Some(d) => Ok(Attachment { description: d, link }),
    }
}

} // verus!
