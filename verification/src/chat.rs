//! The page aggregator: merge independently parsed pages, sorted by page
//! number, into one chat record, deriving the participant set from the
//! messages.

use vstd::prelude::*;
use vstd::multiset::Multiset;
use std::collections::HashSet;
use crate::message::Message;
use crate::page::VkPage;

verus! {

broadcast use vstd::seq_lib::group_to_multiset_ensures, vstd::std_specs::hash::group_hash_axioms;

/// One whole conversation: the archive's chat id (negative for
/// community/group chats), the set of distinct sender ids, and every
/// message in page order.
#[derive(Debug, PartialEq, Eq)]
pub struct VkChat {
    pub id: isize,
    pub users: HashSet<isize>,
    pub messages: Vec<Message>,
}

/// The distinct sender ids across a message sequence.
pub open spec fn users_of(ms: Seq<Message>) -> Set<isize> {
    Set::new(|u: isize| exists|i: int| 0 <= i < ms.len() && #[trigger] ms[i].from_id == u)
}

/// Pages in ascending page-number order.
pub open spec fn pages_sorted(ps: Seq<VkPage>) -> bool {
    forall|i: int, j: int|
        0 <= i < j < ps.len() ==> #[trigger] ps[i].page_number <= #[trigger] ps[j].page_number
}

/// No two pages share a page number.
pub open spec fn distinct_page_numbers(ps: Seq<VkPage>) -> bool {
    forall|i: int, j: int|
        0 <= i < j < ps.len() ==> #[trigger] ps[i].page_number != #[trigger] ps[j].page_number
}

/// The messages of the pages, concatenated in the pages' order.
pub open spec fn concat_messages(ps: Seq<VkPage>) -> Seq<Message>
    decreases ps.len(),
{
    if ps.len() == 0 {
        Seq::<Message>::empty()
    } else {
        ps[0].message_items@ + concat_messages(ps.drop_first())
    }
}

/// Selects the pages carrying the given page number.
pub open spec fn has_page_number(pn: int) -> spec_fn(VkPage) -> bool {
    |p: VkPage| p.page_number == pn
}

/// A sequence with no selected element filters to nothing.
proof fn lemma_filter_none(s: Seq<VkPage>, f: spec_fn(VkPage) -> bool)
    requires
        forall|i: int| 0 <= i < s.len() ==> !f(#[trigger] s[i]),
    ensures
        s.filter(f) == Seq::<VkPage>::empty(),
    decreases s.len(),
{
    reveal(Seq::filter);
    if s.len() > 0 {
        lemma_filter_none(s.drop_last(), f);
    }
}

/// Filtering one element keeps it exactly when it is selected.
proof fn lemma_filter_singleton(p: VkPage, f: spec_fn(VkPage) -> bool)
    ensures
        f(p) ==> seq![p].filter(f) == seq![p],
        !f(p) ==> seq![p].filter(f) == Seq::<VkPage>::empty(),
{
    reveal(Seq::filter);
    assert(seq![p].drop_last() =~= Seq::<VkPage>::empty());
    assert(seq![p].last() == p);
    lemma_filter_none(seq![p].drop_last(), f);
    if f(p) {
        assert(seq![p].filter(f) =~= seq![p]);
    } else {
        assert(seq![p].filter(f) =~= Seq::<VkPage>::empty());
    }
}

/// Sort pages by ascending page number, stably: pages with equal page
/// numbers — not expected in an archive, but tolerated — keep their
/// original relative order, stated by the filter clause.
pub fn sort_pages(pages: Vec<VkPage>) -> (r: Vec<VkPage>)
    ensures
        r@.to_multiset() == pages@.to_multiset(),
        pages_sorted(r@),
        forall|pn: int| #![auto]
            r@.filter(has_page_number(pn)) == pages@.filter(has_page_number(pn)),
{
    let mut rest = pages;
    let mut out: Vec<VkPage> = Vec::new();
    proof {
        assert(out@.to_multiset().add(rest@.to_multiset()) =~= rest@.to_multiset());
        assert forall|pn: int| #![auto]
            out@.filter(has_page_number(pn)) + rest@.filter(has_page_number(pn)) == pages@.filter(
                has_page_number(pn),
            ) by {
            lemma_filter_none(out@, has_page_number(pn));
            assert(out@.filter(has_page_number(pn)) + rest@.filter(has_page_number(pn))
                =~= pages@.filter(has_page_number(pn)));
        }
    }
    while rest.len() > 0
        invariant
            out@.to_multiset().add(rest@.to_multiset()) == pages@.to_multiset(),
            pages_sorted(out@),
            forall|i: int, j: int|
                0 <= i < out@.len() && 0 <= j < rest@.len() ==> #[trigger] out@[i].page_number
                    <= #[trigger] rest@[j].page_number,
            forall|pn: int| #![auto]
                out@.filter(has_page_number(pn)) + rest@.filter(has_page_number(pn))
                    == pages@.filter(has_page_number(pn)),
        decreases rest@.len(),
    {
        let mut min_i: usize = 0;
        let mut k: usize = 1;
        while k < rest.len()
            invariant
                min_i < k <= rest@.len(),
                rest@.len() > 0,
                forall|j: int|
                    0 <= j < k ==> rest@[min_i as int].page_number
                        <= #[trigger] rest@[j].page_number,
                forall|j: int|
                    0 <= j < min_i ==> #[trigger] rest@[j].page_number > rest@[
                        min_i as int
                    ].page_number,
            decreases rest@.len() - k,
        {
            if rest[k].page_number < rest[min_i].page_number {
                min_i = k;
            }
            k = k + 1;
        }
        let ghost old_rest = rest@;
        let ghost old_out = out@;
        let p = rest.remove(min_i);
        out.push(p);
        proof {
            assert(old_rest.remove(min_i as int).to_multiset() =~= old_rest.to_multiset().remove(
                old_rest[min_i as int],
            ));
            assert(old_out.push(p).to_multiset() =~= old_out.to_multiset().insert(p));
            assert(old_rest.to_multiset().count(p) > 0) by {
                assert(old_rest[min_i as int] == p);
                assert(old_rest.contains(p));
            }
            assert(out@.to_multiset().add(rest@.to_multiset()) =~= old_out.to_multiset().add(
                old_rest.to_multiset(),
            ));
            assert(forall|j: int|
                0 <= j < rest@.len() ==> p.page_number <= #[trigger] rest@[j].page_number);
            let before = old_rest.subrange(0, min_i as int);
            let after = old_rest.subrange(min_i + 1, old_rest.len() as int);
            assert(old_rest =~= before + (seq![p] + after));
            assert(rest@ =~= before + after);
            assert(out@ =~= old_out + seq![p]);
            assert forall|pn: int| #![auto]
                out@.filter(has_page_number(pn)) + rest@.filter(has_page_number(pn))
                    == pages@.filter(has_page_number(pn)) by {
                let f = has_page_number(pn);
                Seq::<VkPage>::filter_distributes_over_add(before, seq![p] + after, f);
                Seq::<VkPage>::filter_distributes_over_add(seq![p], after, f);
                Seq::<VkPage>::filter_distributes_over_add(before, after, f);
                Seq::<VkPage>::filter_distributes_over_add(old_out, seq![p], f);
                lemma_filter_singleton(p, f);
                if pn == p.page_number as int {
                    lemma_filter_none(before, f);
                    assert(out@.filter(f) + rest@.filter(f) =~= old_out.filter(f)
                        + old_rest.filter(f));
                } else {
                    assert(out@.filter(f) + rest@.filter(f) =~= old_out.filter(f)
                        + old_rest.filter(f));
                }
            }
        }
    }
    proof {
        assert(rest@.to_multiset() =~= Multiset::<VkPage>::empty()) by {
            assert(rest@ =~= Seq::<VkPage>::empty());
        }
        assert(out@.to_multiset().add(rest@.to_multiset()) =~= out@.to_multiset());
        assert forall|pn: int| #![auto]
            out@.filter(has_page_number(pn)) == pages@.filter(has_page_number(pn)) by {
            lemma_filter_none(rest@, has_page_number(pn));
            assert(out@.filter(has_page_number(pn)) =~= out@.filter(has_page_number(pn))
                + rest@.filter(has_page_number(pn)));
        }
    }
    out
}

/// Pushing a message extends the user set by exactly its sender.
proof fn lemma_users_push(ms: Seq<Message>, m: Message)
    ensures
        users_of(ms.push(m)) == users_of(ms).insert(m.from_id),
{
    let a = users_of(ms.push(m));
    let b = users_of(ms).insert(m.from_id);
    assert forall|u: isize| a.contains(u) implies b.contains(u) by {
        let i = choose|i: int| 0 <= i < ms.push(m).len() && #[trigger] ms.push(m)[i].from_id == u;
        if i < ms.len() {
            assert(ms[i].from_id == u);
        } else {
            assert(ms.push(m)[ms.len() as int] == m);
        }
    }
    assert forall|u: isize| b.contains(u) implies a.contains(u) by {
        if u == m.from_id {
            assert(ms.push(m)[ms.len() as int].from_id == u);
        } else {
            let i = choose|i: int| 0 <= i < ms.len() && #[trigger] ms[i].from_id == u;
            assert(ms.push(m)[i].from_id == u);
        }
    }
    assert(a =~= b);
}

/// Merge parsed pages into one chat: sort the pages by ascending page
/// number, concatenate their messages in that order — each page's internal
/// document order kept — and derive the set of distinct sender ids. The
/// messages move from the pages into the chat.
pub fn join_pages(pages: Vec<VkPage>, id: isize) -> (c: VkChat)
    ensures
        c.id == id,
        c.users@ == users_of(c.messages@),
        exists|sp: Seq<VkPage>|
            #![auto]
            sp.to_multiset() == pages@.to_multiset() && pages_sorted(sp) && (forall|pn: int|
                #![auto]
                sp.filter(has_page_number(pn)) == pages@.filter(has_page_number(pn)))
                && c.messages@ == concat_messages(sp),
{
    let sorted = sort_pages(pages);
    let ghost sp = sorted@;
    let mut rest = sorted;
    let mut messages: Vec<Message> = Vec::new();
    let mut users: HashSet<isize> = HashSet::new();
    proof {
        assert(concat_messages(sp) =~= messages@ + concat_messages(rest@));
        assert(users@ =~= users_of(messages@)) by {
            assert(forall|u: isize| !users_of(messages@).contains(u));
        }
    }
    while rest.len() > 0
        invariant
            concat_messages(sp) == messages@ + concat_messages(rest@),
            users@ == users_of(messages@),
        decreases rest@.len(),
    {
        let ghost old_rest = rest@;
        let page = rest.remove(0);
        let mut items = page.message_items;
        proof {
            assert(old_rest.remove(0) =~= old_rest.drop_first());
            assert(concat_messages(old_rest) == old_rest[0].message_items@ + concat_messages(
                old_rest.drop_first(),
            ));
            assert(messages@ + (items@ + concat_messages(rest@)) =~= (messages@ + items@)
                + concat_messages(rest@));
        }
        while items.len() > 0
            invariant
                concat_messages(sp) == (messages@ + items@) + concat_messages(rest@),
                users@ == users_of(messages@),
            decreases items@.len(),
        {
            let ghost old_items = items@;
            let ghost old_messages = messages@;
            let m = items.remove(0);
            let ghost gm = m;
            users.insert(m.from_id);
            messages.push(m);
            proof {
                lemma_users_push(old_messages, gm);
                assert(old_items.remove(0) =~= old_items.drop_first());
                assert(old_messages + old_items =~= old_messages.push(gm)
                    + old_items.drop_first());
                assert((messages@ + items@) + concat_messages(rest@) =~= (old_messages
                    + old_items) + concat_messages(rest@));
            }
        }
        proof {
            assert(messages@ + items@ =~= messages@);
        }
    }
    proof {
        assert(concat_messages(rest@) =~= Seq::<Message>::empty()) by {
            assert(rest@ =~= Seq::<VkPage>::empty());
        }
        assert(messages@ =~= messages@ + concat_messages(rest@));
    }
    let c = VkChat { id, users, messages };
    proof {
        assert(sp.to_multiset() == pages@.to_multiset() && pages_sorted(sp) && (forall|pn: int|
            #![auto]
            sp.filter(has_page_number(pn)) == pages@.filter(has_page_number(pn)))
            && c.messages@ == concat_messages(sp));
    }
    c
}

/// Among pages with pairwise distinct page numbers, only one sorted
/// arrangement of a given collection exists.
pub proof fn lemma_sorted_unique(sa: Seq<VkPage>, sb: Seq<VkPage>)
    requires
        sa.to_multiset() == sb.to_multiset(),
        pages_sorted(sa),
        pages_sorted(sb),
        distinct_page_numbers(sa),
    ensures
        sa == sb,
    decreases sa.len(),
{
    if sa.len() == 0 {
        assert(sb.len() == sb.to_multiset().len());
        assert(sa =~= sb);
    } else {
        assert(sb.len() == sb.to_multiset().len() && sa.len() == sa.to_multiset().len());
        assert(sb.contains(sa[0])) by {
            assert(sa.contains(sa[0]));
            assert(sa.to_multiset().count(sa[0]) > 0);
        }
        assert(sa.contains(sb[0])) by {
            assert(sb.contains(sb[0]));
            assert(sb.to_multiset().count(sb[0]) > 0);
        }
        let k = choose|k: int| 0 <= k < sb.len() && sb[k] == sa[0];
        let j = choose|j: int| 0 <= j < sa.len() && sa[j] == sb[0];
        assert(sb[0].page_number <= sb[k].page_number);
        assert(sa[0].page_number <= sa[j].page_number);
        assert(sa[0].page_number == sb[0].page_number);
        assert(sb[0] == sa[0]) by {
            if j != 0 {
                assert(sa[0].page_number != sa[j].page_number);
            }
        }
        let ta = sa.drop_first();
        let tb = sb.drop_first();
        assert(ta.to_multiset() =~= tb.to_multiset()) by {
            assert(sa.remove(0) =~= ta);
            assert(sb.remove(0) =~= tb);
            assert(sa.remove(0).to_multiset() =~= sa.to_multiset().remove(sa[0]));
            assert(sb.remove(0).to_multiset() =~= sb.to_multiset().remove(sb[0]));
        }
        assert(pages_sorted(ta) && pages_sorted(tb));
        assert(distinct_page_numbers(ta));
        lemma_sorted_unique(ta, tb);
        assert(sa =~= sb) by {
            assert(forall|i: int|
                1 <= i < sa.len() ==> #[trigger] sa[i] == ta[i - 1] && sb[i] == tb[i - 1]);
        }
    }
}

/// The aggregation's order invariant: for page collections with distinct
/// page numbers, the aggregated message sequence does not depend on the
/// order the pages arrive in — any two sorted arrangements of the same
/// pages concatenate to the same messages.
pub proof fn lemma_aggregate_order_invariant(
    p1: Seq<VkPage>,
    s1: Seq<VkPage>,
    p2: Seq<VkPage>,
    s2: Seq<VkPage>,
)
    requires
        p1.to_multiset() == p2.to_multiset(),
        distinct_page_numbers(s1),
        s1.to_multiset() == p1.to_multiset(),
        pages_sorted(s1),
        s2.to_multiset() == p2.to_multiset(),
        pages_sorted(s2),
    ensures
        concat_messages(s1) == concat_messages(s2),
{
    lemma_sorted_unique(s1, s2);
}

} // verus!
