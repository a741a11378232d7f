//! Numeric identifiers read from text: the signed sender id carried by a
//! profile-URL slug, and the chat id taken from a directory name.
//!
//! A slug has the form `id<N>`, `club<N>` or `public<N>`. The `club` and
//! `public` tags mark community/group accounts and negate the numeric id;
//! `id` (or any other tag) leaves it positive. That sign convention encodes
//! the account type and is part of the data model.

use vstd::prelude::*;
use crate::errors::ChatError;
use crate::text::{
    all_digits, digits_value, first_digit_from, is_digit, lemma_digits_value_nonneg,
    lemma_digits_value_prefix, lemma_first_digit_from,
};

verus! {

/// Value of a non-empty all-digit string; `None` for anything else.
pub open spec fn spec_parse_uint(s: Seq<char>) -> Option<int> {
    if s.len() > 0 && all_digits(s) {
        Some(digits_value(s))
    } else {
        None
    }
}

/// The signed id a slug denotes: the digits from the first digit onward,
/// negated when the leading tag is `club` or `public`; `None` when no digit
/// exists or the tail is not purely numeric.
pub open spec fn spec_from_id(s: Seq<char>) -> Option<int> {
    let k = first_digit_from(s, 0);
    if k == s.len() {
        None
    } else {
        match spec_parse_uint(s.skip(k)) {
            Some(n) => {
                if s.take(k) == "club"@ || s.take(k) == "public"@ {
                    Some(-n)
                } else {
                    Some(n)
                }
            },
            None => None,
        }
    }
}

/// Parse the digit run `[from, to)` of `v` as an unsigned machine integer.
pub fn parse_uint_chars(v: &Vec<char>, from: usize, to: usize) -> (r: Option<usize>)
    requires
        from <= to <= v@.len(),
    ensures
        ({
            let seg = v@.subrange(from as int, to as int);
            match spec_parse_uint(seg) {
                Some(n) => if n <= usize::MAX { r == Some(n as usize) } else { r is None },
                None => r is None,
            }
        }),
{
    let ghost seg = v@.subrange(from as int, to as int);
    if from == to {
        return None;
    }
    let mut acc: usize = 0;
    let mut i: usize = from;
    proof {
        assert(seg.take(0) =~= Seq::<char>::empty());
    }
    while i < to
        invariant
            from <= i <= to <= v@.len(),
            seg == v@.subrange(from as int, to as int),
            all_digits(seg.take(i - from)),
            acc == digits_value(seg.take(i - from)),
        decreases to - i,
    {
        let c = v[i];
        if !('0' <= c && c <= '9') {
            proof {
                assert(seg[i - from] == v@[i as int]);
                assert(!all_digits(seg));
            }
            return None;
        }
        let d: usize = (c as u32 as usize) - 48;
        proof {
            let pre = seg.take(i - from);
            let cur = seg.take(i - from + 1);
            assert(cur.drop_last() =~= pre);
            assert(cur.last() == seg[i - from] && seg[i - from] == v@[i as int]);
        }
        if acc > (usize::MAX - d) / 10 {
            proof {
                vstd::arithmetic::div_mod::lemma_fundamental_div_mod(
                    (usize::MAX - d) as int,
                    10,
                );
                assert(10 * (acc as int) + d > usize::MAX);
                if all_digits(seg) {
                    lemma_digits_value_prefix(seg, i - from + 1);
                    assert(digits_value(seg.take(i - from + 1)) == 10 * (acc as int) + d);
                }
            }
            return None;
        }
        proof {
            vstd::arithmetic::div_mod::lemma_fundamental_div_mod((usize::MAX - d) as int, 10);
            assert(10 * (acc as int) + d <= usize::MAX);
        }
        acc = acc * 10 + d;
        i = i + 1;
    }
    proof {
        assert(seg.take(to - from) =~= seg);
    }
    Some(acc)
}

/// Resolve a profile-URL slug into a signed account id.
///
/// `club<N>` and `public<N>` yield `-N`; `id<N>`, or any tag other than
/// those two, yields `+N`. A slug without a digit, with a non-numeric tail
/// after its first digit, or with a value too large for the machine is
/// rejected with [`ChatError::UnrecognizedSlug`] carrying the slug.
pub fn parse_from_id(slug: &str) -> (r: Result<isize, ChatError>)
    ensures
        ({
            match spec_from_id(slug@) {
                Some(n) => {
                    if -(isize::MAX as int) <= n <= isize::MAX as int {
                        r is Ok && r->Ok_0 == n as isize
                    } else {
                        r is Err && r->Err_0 is UnrecognizedSlug
                            && r->Err_0->UnrecognizedSlug_0@ == slug@
                    }
                },
                None => r is Err && r->Err_0 is UnrecognizedSlug
                    && r->Err_0->UnrecognizedSlug_0@ == slug@,
            }
        }),
{
    let v = crate::text::chars_vec(slug);
    let n = v.len();
    proof {
        lemma_first_digit_from(v@, 0);
    }
    let mut k: usize = 0;
    while k < n && !('0' <= v[k] && v[k] <= '9')
        invariant
            n == v@.len(),
            0 <= k <= n,
            forall|j: int| 0 <= j < k ==> !is_digit(#[trigger] v@[j]),
            first_digit_from(v@, 0) >= k,
        decreases n - k,
    {
        proof {
            lemma_first_digit_from(v@, 0);
            assert(first_digit_from(v@, 0) != k);
        }
        k = k + 1;
    }
    proof {
        lemma_first_digit_from(v@, 0);
        assert(first_digit_from(v@, 0) == k);
    }
    if k == n {
        return Err(ChatError::UnrecognizedSlug(slug.to_owned()));
    }
    let num = parse_uint_chars(&v, k, n);
    proof {
        assert(v@.subrange(k as int, n as int) =~= v@.skip(k as int));
    }
    match num {
        None => Err(ChatError::UnrecognizedSlug(slug.to_owned())),
        Some(value) => {
            proof {
                if spec_parse_uint(v@.skip(k as int)) is Some {
                    assert(all_digits(v@.skip(k as int)));
                    lemma_digits_value_nonneg(v@.skip(k as int));
                }
                assert(spec_parse_uint(v@.skip(k as int)) == Some(value as int));
            }
            if value > (isize::MAX as usize) {
                return Err(ChatError::UnrecognizedSlug(slug.to_owned()));
            }
            let negate = is_club_or_public(&v, k);
            proof {
                lemma_digits_value_nonneg(v@.skip(k as int));
            }
            if negate {
                Ok(-(value as isize))
            } else {
                Ok(value as isize)
            }
        },
    }
}

/// The signed chat id a directory name denotes: an optional `-` or `+`
/// sign followed by digits; `None` for anything else.
pub open spec fn spec_chat_id(s: Seq<char>) -> Option<int> {
    if s.len() > 0 && (s[0] == '-' || s[0] == '+') {
        match spec_parse_uint(s.skip(1)) {
            Some(n) => if s[0] == '-' {
                Some(-n)
            } else {
                Some(n)
            },
            None => None,
        }
    } else {
        spec_parse_uint(s)
    }
}

/// Parse the chat id carried by the archive directory's name. Rejected
/// text fails the whole run with [`ChatError::InvalidChatId`].
pub fn parse_chat_id(text: &str) -> (r: Result<isize, ChatError>)
    ensures
        ({
            match spec_chat_id(text@) {
                Some(n) => {
                    if -(isize::MAX as int) <= n <= isize::MAX as int {
                        r is Ok && r->Ok_0 == n as isize
                    } else {
                        r is Err && r->Err_0 is InvalidChatId
                            && r->Err_0->InvalidChatId_0@ == text@
                    }
                },
                None => r is Err && r->Err_0 is InvalidChatId
                    && r->Err_0->InvalidChatId_0@ == text@,
            }
        }),
{
    let v = crate::text::chars_vec(text);
    let n = v.len();
    let signed: bool = n > 0 && (v[0] == '-' || v[0] == '+');
    let start: usize = if signed { 1 } else { 0 };
    let num = parse_uint_chars(&v, start, n);
    proof {
        if signed {
            assert(v@.subrange(1, n as int) =~= v@.skip(1));
        } else {
            assert(v@.subrange(0, n as int) =~= v@);
        }
        let seg = if signed { v@.skip(1) } else { v@ };
        if spec_parse_uint(seg) is Some {
            assert(all_digits(seg));
            lemma_digits_value_nonneg(seg);
        }
    }
    match num {
        None => Err(ChatError::InvalidChatId(text.to_owned())),
        Some(value) => {
            if value > (isize::MAX as usize) {
                return Err(ChatError::InvalidChatId(text.to_owned()));
            }
            if signed && v[0] == '-' {
                Ok(-(value as isize))
            } else {
                Ok(value as isize)
            }
        },
    }
}

/// Does the tag before the first digit read `club` or `public`?
fn is_club_or_public(v: &Vec<char>, k: usize) -> (r: bool)
    requires
        k <= v@.len(),
    ensures
        r == (v@.take(k as int) == "club"@ || v@.take(k as int) == "public"@),
{
    proof {
        reveal_strlit("club");
        reveal_strlit("public");
    }
    if k == 4 {
        let r = v[0] == 'c' && v[1] == 'l' && v[2] == 'u' && v[3] == 'b';
        proof {
            if r {
                assert(v@.take(4) =~= "club"@);
            } else {
                if v@.take(4) == "club"@ {
                    assert(v@[0] == v@.take(4)[0] && v@[1] == v@.take(4)[1]
                        && v@[2] == v@.take(4)[2] && v@[3] == v@.take(4)[3]);
                    assert(false);
                }
                assert(v@.take(4int).len() != "public"@.len());
            }
        }
        r
    } else if k == 6 {
        let r = v[0] == 'p' && v[1] == 'u' && v[2] == 'b' && v[3] == 'l' && v[4] == 'i'
            && v[5] == 'c';
        proof {
            if r {
                assert(v@.take(6) =~= "public"@);
            } else {
                if v@.take(6) == "public"@ {
                    assert(v@[0] == v@.take(6)[0] && v@[1] == v@.take(6)[1]
                        && v@[2] == v@.take(6)[2] && v@[3] == v@.take(6)[3]
                        && v@[4] == v@.take(6)[4] && v@[5] == v@.take(6)[5]);
                    assert(false);
                }
                assert(v@.take(6int).len() != "club"@.len());
            }
        }
        r
    } else {
        proof {
            assert(v@.take(k as int).len() == k);
        }
        false
    }
}

/// Sign convention of the account-type encoding: for every digit string `d`,
/// a `club` or `public` slug resolves to the negated value and an `id` slug
/// to the positive value.
pub proof fn lemma_sign_convention(d: Seq<char>)
    requires
        d.len() > 0,
        all_digits(d),
    ensures
        spec_from_id("club"@ + d) == Some(-digits_value(d)),
        spec_from_id("public"@ + d) == Some(-digits_value(d)),
        spec_from_id("id"@ + d) == Some(digits_value(d)),
{
    reveal_strlit("club");
    reveal_strlit("public");
    reveal_strlit("id");
    lemma_prefixed_slug("club"@, d);
    lemma_prefixed_slug("public"@, d);
    lemma_prefixed_slug("id"@, d);
    assert(("club"@ + d).take(4) =~= "club"@);
    assert(("public"@ + d).take(6) =~= "public"@);
    assert(("id"@ + d).take(2) =~= "id"@);
    assert("id"@ != "club"@ && "id"@ != "public"@);
}

/// For a slug made of a digit-free tag followed by digits, the first digit
/// stands right after the tag and the numeric tail is the digit string.
proof fn lemma_prefixed_slug(tag: Seq<char>, d: Seq<char>)
    requires
        d.len() > 0,
        all_digits(d),
        forall|j: int| 0 <= j < tag.len() ==> !is_digit(#[trigger] tag[j]),
    ensures
        first_digit_from(tag + d, 0) == tag.len(),
        (tag + d).skip(tag.len() as int) == d,
        spec_parse_uint((tag + d).skip(tag.len() as int)) == Some(digits_value(d)),
    decreases tag.len(),
{
    let s = tag + d;
    if tag.len() == 0 {
        assert(s =~= d);
        assert(s.skip(0) =~= d);
        assert(is_digit(s[0]));
    } else {
        lemma_prefixed_slug(tag.skip(1), d);
        assert(!is_digit(s[0]));
        assert(s.skip(1) =~= tag.skip(1) + d);
        lemma_first_digit_shift(s);
        assert(s.skip(tag.len() as int) =~= (tag.skip(1) + d).skip(tag.len() - 1));
    }
}

/// Stepping one character forward shifts the first-digit search by one when
/// the head is not a digit.
proof fn lemma_first_digit_shift(s: Seq<char>)
    requires
        s.len() > 0,
        !is_digit(s[0]),
    ensures
        first_digit_from(s, 0) == 1 + first_digit_from(s.skip(1), 0),
{
    lemma_first_digit_align(s, 1);
}

/// `first_digit_from` over a suffix mirrors the search from the cut point.
proof fn lemma_first_digit_align(s: Seq<char>, i: int)
    requires
        0 <= i <= s.len(),
    ensures
        first_digit_from(s, i) == i + first_digit_from(s.skip(i), 0),
    decreases s.len() - i,
{
    let t = s.skip(i);
    lemma_first_digit_from(s, i);
    lemma_first_digit_from(t, 0);
    let a = first_digit_from(s, i);
    let b = first_digit_from(t, 0);
    assert(forall|j: int| 0 <= j < t.len() ==> t[j] == s[i + j]);
    if a < s.len() {
        assert(is_digit(t[a - i]));
        assert(forall|j: int| 0 <= j < a - i ==> !is_digit(#[trigger] t[j]));
        assert(b == a - i) by {
            if b < a - i {
                assert(is_digit(t[b]));
            }
            if b > a - i {
                assert(!is_digit(t[a - i]));
            }
        }
    } else {
        assert(forall|j: int| 0 <= j < t.len() ==> !is_digit(#[trigger] t[j]));
        assert(b == t.len()) by {
            if b < t.len() {
                assert(is_digit(t[b]));
            }
        }
    }
}

} // verus!
