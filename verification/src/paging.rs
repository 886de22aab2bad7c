//! Pages of one query, asked for one after the other.

use crate::driver::{
    flat_view, flat_views, is_answer, is_page, is_sorting, is_walk, law_matching_is_exact,
    listing_views, matches_query, matching, ListingView, RoomQueryResult,
};
use crate::query::QueryView;
use crate::sorting::{
    consistent, is_permutation, is_sorted_by, law_sorting_unique, listing_order, reversed,
};
use crate::value::Order;
use vstd::prelude::*;

verus! {

/// The query for the page that starts at an offset.
pub open spec fn page_query(q: QueryView, offset: usize) -> QueryView {
    QueryView { offset, ..q }
}

/// The query for the page number `i`: the first page starts at the beginning, every
/// other one where the page before it says.
pub open spec fn nth_query(q: QueryView, pages: Seq<RoomQueryResult>, i: int) -> QueryView {
    page_query(
        q,
        if i == 0 {
            0
        } else {
            pages[i - 1].next_offset->Some_0
        },
    )
}

/// Each page but the last one says where the next one starts.
pub open spec fn is_chain(pages: Seq<RoomQueryResult>) -> bool {
    &&& pages.len() > 0
    &&& forall|i: int|
        0 <= i < pages.len() ==> ((#[trigger] pages[i]).next_offset is None <==> i == pages.len() - 1)
}

/// The listings of pages, in order.
pub open spec fn page_items(pages: Seq<RoomQueryResult>) -> Seq<ListingView>
    decreases pages.len(),
{
    if pages.len() == 0 {
        seq![]
    } else {
        page_items(pages.drop_last()) + listing_views(pages.last().items@)
    }
}

proof fn lemma_pages_prefix(
    m: Seq<ListingView>,
    q: QueryView,
    pages: Seq<RoomQueryResult>,
    n: int,
)
    requires
        !q.count,
        is_chain(pages),
        forall|i: int|
            0 <= i < pages.len() ==> #[trigger] is_page(m, nth_query(q, pages, i), pages[i]),
        0 < n <= pages.len(),
    ensures
        page_items(pages.take(n)) == m.take(pages[n - 1].offset + pages[n - 1].items.len()),
        pages[n - 1].offset + pages[n - 1].items.len() <= m.len(),
        pages[n - 1].next_offset matches Some(o) ==> o == pages[n - 1].offset + pages[n
            - 1].items.len(),
        pages[n - 1].next_offset is None ==> pages[n - 1].offset + pages[n - 1].items.len()
            == m.len(),
    decreases n,
{
    let p = pages[n - 1];
    assert(is_page(m, nth_query(q, pages, n - 1), p));
    assert(listing_views(p.items@).len() == p.items@.len());
    assert(pages.take(n).drop_last() =~= pages.take(n - 1));
    assert(pages.take(n).last() == p);
    if n == 1 {
        assert(pages.take(0) =~= seq![]);
        assert(page_items(pages.take(0)) =~= seq![]);
        assert(page_items(pages.take(n)) =~= m.take(p.offset + p.items.len()));
    } else {
        lemma_pages_prefix(m, q, pages, n - 1);
        assert(pages[n - 2].next_offset is Some);
        assert(page_items(pages.take(n)) =~= m.take(p.offset + p.items.len()));
    }
}

/// The pages of one ordered answer, followed from the first to the last, hold the
/// whole answer.
pub proof fn law_pages_hold_answer(
    m: Seq<ListingView>,
    q: QueryView,
    pages: Seq<RoomQueryResult>,
)
    requires
        !q.count,
        is_chain(pages),
        forall|i: int|
            0 <= i < pages.len() ==> #[trigger] is_page(m, nth_query(q, pages, i), pages[i]),
    ensures
        page_items(pages) == m,
{
    lemma_pages_prefix(m, q, pages, pages.len() as int);
    assert(pages.take(pages.len() as int) =~= pages);
    assert(m.take(m.len() as int) =~= m);
}

// ---------------------------------------------------------------------
// pages of separate calls
// ---------------------------------------------------------------------

/// The keys put the listings in an order and tell every two of them apart.
pub open spec fn tells_apart(ls: Seq<ListingView>, sort: Seq<(Seq<char>, int)>) -> bool {
    &&& sort.len() > 0
    &&& consistent(flat_views(ls), sort)
    &&& forall|i: int, j: int|
        0 <= i < ls.len() && 0 <= j < ls.len() && i != j ==> #[trigger] listing_order(
            flat_views(ls)[i],
            flat_views(ls)[j],
            sort,
        ) != Order::Equal
}

/// Each listing stands under its room's id.
pub open spec fn under_own_ids(m: Map<Seq<char>, ListingView>) -> bool {
    forall|k: Seq<char>| #[trigger] m.dom().contains(k) ==> m[k].room_id == k
}

/// Each listing comes before all that are behind it.
#[verifier::opaque]
spec fn ascends(ls: Seq<ListingView>, sort: Seq<(Seq<char>, int)>) -> bool {
    forall|i: int, j: int|
        #![trigger ls[i], ls[j]]
        0 <= i < j < ls.len() ==> listing_order(flat_view(ls[i]), flat_view(ls[j]), sort)
            == Order::Less
}

/// Turning a pair of the listings round reverses its order.
#[verifier::opaque]
spec fn reverses(ls: Seq<ListingView>, sort: Seq<(Seq<char>, int)>) -> bool {
    forall|x: ListingView, y: ListingView|
        ls.contains(x) && ls.contains(y) ==> #[trigger] listing_order(
            flat_view(x),
            flat_view(y),
            sort,
        ) == reversed(listing_order(flat_view(y), flat_view(x), sort))
}

proof fn lemma_walk_distinct(m: Map<Seq<char>, ListingView>, all: Seq<ListingView>)
    requires
        is_walk(m, all),
        under_own_ids(m),
    ensures
        all.no_duplicates(),
{
    let keys = choose|keys: Seq<Seq<char>>| #[trigger]
        keys.no_duplicates() && keys.to_set() == m.dom() && all == keys.map_values(
            |k: Seq<char>| m[k],
        );
    assert forall|i: int, j: int| 0 <= i < all.len() && 0 <= j < all.len() && i != j implies all[i]
        != all[j] by {
        assert(keys.to_set().contains(keys[i]));
        assert(keys.to_set().contains(keys[j]));
        assert(m.dom().contains(keys[i]) && m.dom().contains(keys[j]));
        assert(keys[i] != keys[j]);
    }
}

proof fn lemma_matching_distinct(all: Seq<ListingView>, q: QueryView)
    requires
        all.no_duplicates(),
    ensures
        matching(all, q).no_duplicates(),
        forall|l: ListingView| #[trigger] matching(all, q).contains(l) ==> all.contains(l),
    decreases all.len(),
{
    if all.len() > 0 {
        let init = all.drop_last();
        let before = matching(init, q);
        let after = matching(all, q);
        lemma_matching_distinct(init, q);
        assert(!init.contains(all.last()));
        assert(!before.contains(all.last()));
        assert forall|i: int, j: int|
            0 <= i < after.len() && 0 <= j < after.len() && i != j implies after[i] != after[j] by {
            if i < before.len() {
                assert(before.contains(before[i]));
            }
            if j < before.len() {
                assert(before.contains(before[j]));
            }
        }
        assert forall|l: ListingView| after.contains(l) implies all.contains(l) by {
            let i = choose|i: int| 0 <= i < after.len() && after[i] == l;
            if i < before.len() {
                assert(before.contains(l));
                let k = choose|k: int| 0 <= k < init.len() && init[k] == l;
                assert(all[k] == l);
            } else {
                assert(all[all.len() - 1] == l);
            }
        }
    }
}

/// Where a page starts does not matter for what matches.
proof fn lemma_matching_any_page(all: Seq<ListingView>, q: QueryView, offset: usize)
    ensures
        matching(all, page_query(q, offset)) == matching(all, q),
    decreases all.len(),
{
    if all.len() > 0 {
        lemma_matching_any_page(all.drop_last(), q, offset);
        assert(matches_query(all.last(), page_query(q, offset)) == matches_query(all.last(), q));
    }
}

/// A sorting by keys that tell the listings apart ascends, and holds the listings.
proof fn lemma_sorting_ascends(
    ls: Seq<ListingView>,
    sort: Seq<(Seq<char>, int)>,
    out: Seq<ListingView>,
)
    requires
        tells_apart(ls, sort),
        is_sorting(ls, sort, out),
    ensures
        ascends(out, sort),
        out.len() == ls.len(),
        forall|l: ListingView| #[trigger] out.contains(l) ==> ls.contains(l),
        reverses(ls, sort),
{
    reveal(ascends);
    reveal(reverses);
    let fl = flat_views(ls);
    let p = choose|p: Seq<int>| #[trigger]
        is_permutation(p, ls.len() as int) && out == p.map_values(|i: int| ls[i]) && (consistent(
            fl,
            sort,
        ) ==> is_sorted_by(p, fl, sort));
    assert forall|i: int, j: int|
        #![trigger out[i], out[j]]
        0 <= i < j < out.len() implies listing_order(flat_view(out[i]), flat_view(out[j]), sort)
        == Order::Less by {
        assert(p[i] != p[j]);
        assert(fl[p[i]] == flat_view(out[i]));
        assert(fl[p[j]] == flat_view(out[j]));
        assert(listing_order(fl[p[i]], fl[p[j]], sort) != Order::Equal);
    }
    assert forall|l: ListingView| out.contains(l) implies ls.contains(l) by {
        let i = choose|i: int| 0 <= i < out.len() && out[i] == l;
        assert(ls[p[i]] == l);
    }
    assert forall|x: ListingView, y: ListingView|
        ls.contains(x) && ls.contains(y) implies #[trigger] listing_order(
        flat_view(x),
        flat_view(y),
        sort,
    ) == reversed(listing_order(flat_view(y), flat_view(x), sort)) by {
        let i = choose|i: int| 0 <= i < ls.len() && ls[i] == x;
        let j = choose|j: int| 0 <= j < ls.len() && ls[j] == y;
        assert(fl[i] == flat_view(x) && fl[j] == flat_view(y));
        assert(listing_order(fl[i], fl[j], sort) == reversed(listing_order(fl[j], fl[i], sort)));
    }
}

/// The first of two ascending sequences of the same listings is the same.
proof fn lemma_same_head(a: Seq<ListingView>, b: Seq<ListingView>, sort: Seq<(Seq<char>, int)>)
    requires
        ascends(a, sort),
        ascends(b, sort),
        reverses(a, sort),
        forall|l: ListingView| #[trigger] a.contains(l) <==> b.contains(l),
        a.len() > 0,
        b.len() > 0,
    ensures
        a[0] == b[0],
{
    reveal(ascends);
    reveal(reverses);
    let x = a[0];
    let y = b[0];
    assert(a.contains(x));
    assert(b.contains(y));
    assert(a.contains(y));
    if x != y {
        let i = choose|i: int| 0 <= i < a.len() && a[i] == y;
        let j = choose|j: int| 0 <= j < b.len() && b[j] == x;
        assert(listing_order(flat_view(a[0]), flat_view(a[i]), sort) == Order::Less);
        assert(listing_order(flat_view(b[0]), flat_view(b[j]), sort) == Order::Less);
        assert(listing_order(flat_view(x), flat_view(y), sort) == reversed(
            listing_order(flat_view(y), flat_view(x), sort),
        ));
    }
}

/// What is behind the same first listing is the same.
proof fn lemma_same_rest(a: Seq<ListingView>, b: Seq<ListingView>)
    requires
        a.no_duplicates(),
        b.no_duplicates(),
        a.len() > 0,
        b.len() > 0,
        a[0] == b[0],
        forall|l: ListingView| #[trigger] a.contains(l) <==> b.contains(l),
    ensures
        forall|l: ListingView| #[trigger]
            a.drop_first().contains(l) <==> b.drop_first().contains(l),
        forall|l: ListingView| #[trigger] a.drop_first().contains(l) ==> a.contains(l),
{
    let s = a.drop_first();
    let t = b.drop_first();
    assert forall|l: ListingView| #[trigger] s.contains(l) implies a.contains(l) && t.contains(
        l,
    ) by {
        let i = choose|i: int| 0 <= i < s.len() && s[i] == l;
        assert(a[i + 1] == l);
        assert(a.contains(l));
        let j = choose|j: int| 0 <= j < b.len() && b[j] == l;
        assert(a[0] != a[i + 1]);
        assert(t[j - 1] == l);
    }
    assert forall|l: ListingView| t.contains(l) implies #[trigger] s.contains(l) by {
        let i = choose|i: int| 0 <= i < t.len() && t[i] == l;
        assert(b[i + 1] == l);
        assert(b.contains(l));
        assert(a.contains(l));
        let j = choose|j: int| 0 <= j < a.len() && a[j] == l;
        assert(b[0] != b[i + 1]);
        assert(s[j - 1] == l);
    }
}

proof fn lemma_rest_ascends(a: Seq<ListingView>, sort: Seq<(Seq<char>, int)>)
    requires
        ascends(a, sort),
        a.len() > 0,
    ensures
        ascends(a.drop_first(), sort),
{
    reveal(ascends);
    let s = a.drop_first();
    assert forall|i: int, j: int|
        #![trigger s[i], s[j]]
        0 <= i < j < s.len() implies listing_order(flat_view(s[i]), flat_view(s[j]), sort)
        == Order::Less by {
        assert(s[i] == a[i + 1] && s[j] == a[j + 1]);
    }
}

proof fn lemma_reverses_fewer(
    a: Seq<ListingView>,
    s: Seq<ListingView>,
    sort: Seq<(Seq<char>, int)>,
)
    requires
        reverses(a, sort),
        forall|l: ListingView| #[trigger] s.contains(l) ==> a.contains(l),
    ensures
        reverses(s, sort),
{
    reveal(reverses);
}

/// Two ascending sequences of the same listings are the same.
proof fn lemma_ascending_same(
    a: Seq<ListingView>,
    b: Seq<ListingView>,
    sort: Seq<(Seq<char>, int)>,
)
    requires
        ascends(a, sort),
        ascends(b, sort),
        reverses(a, sort),
        a.no_duplicates(),
        b.no_duplicates(),
        forall|l: ListingView| #[trigger] a.contains(l) <==> b.contains(l),
    ensures
        a == b,
    decreases a.len(),
{
    if a.len() == 0 {
        if b.len() > 0 {
            assert(b.contains(b[0]));
            assert(a.contains(b[0]));
        }
        assert(a =~= b);
    } else {
        assert(a.contains(a[0]));
        assert(b.contains(a[0]));
        lemma_same_head(a, b, sort);
        lemma_same_rest(a, b);
        let s = a.drop_first();
        let t = b.drop_first();
        lemma_rest_ascends(a, sort);
        lemma_rest_ascends(b, sort);
        lemma_reverses_fewer(a, s, sort);
        lemma_ascending_same(s, t, sort);
        assert(a =~= seq![a[0]] + s);
        assert(b =~= seq![b[0]] + t);
    }
}

/// As many listings out as in, none twice and none other: all of them.
proof fn lemma_all_there(ls: Seq<ListingView>, out: Seq<ListingView>)
    requires
        ls.no_duplicates(),
        out.no_duplicates(),
        out.len() == ls.len(),
        forall|l: ListingView| out.contains(l) ==> ls.contains(l),
    ensures
        forall|l: ListingView| ls.contains(l) ==> out.contains(l),
{
    let a = ls.to_set();
    let b = out.to_set();
    ls.unique_seq_to_set();
    out.unique_seq_to_set();
    assert(b.subset_of(a)) by {
        assert forall|l: ListingView| b.contains(l) implies a.contains(l) by {
            assert(out.contains(l));
        }
    }
    vstd::set_lib::lemma_subset_equality(b, a);
    assert forall|l: ListingView| ls.contains(l) implies out.contains(l) by {
        assert(a.contains(l));
        assert(b.contains(l));
    }
}

proof fn lemma_ascending_distinct(ls: Seq<ListingView>, sort: Seq<(Seq<char>, int)>)
    requires
        ascends(ls, sort),
        reverses(ls, sort),
    ensures
        ls.no_duplicates(),
{
    reveal(ascends);
    reveal(reverses);
    assert forall|i: int, j: int| 0 <= i < ls.len() && 0 <= j < ls.len() && i != j implies ls[i]
        != ls[j] by {
        assert(ls.contains(ls[i]));
        assert(listing_order(flat_view(ls[i]), flat_view(ls[i]), sort) == reversed(
            listing_order(flat_view(ls[i]), flat_view(ls[i]), sort),
        ));
        if i < j {
            assert(listing_order(flat_view(ls[i]), flat_view(ls[j]), sort) == Order::Less);
        } else {
            assert(listing_order(flat_view(ls[j]), flat_view(ls[i]), sort) == Order::Less);
        }
    }
}

/// However the listings are walked, keys that tell those that match apart put them
/// in the same order.
pub proof fn law_order_is_fixed(
    m: Map<Seq<char>, ListingView>,
    q: QueryView,
    first: Seq<ListingView>,
    second: Seq<ListingView>,
    a: Seq<ListingView>,
    b: Seq<ListingView>,
)
    requires
        under_own_ids(m),
        is_walk(m, first),
        is_walk(m, second),
        tells_apart(matching(first, q), q.sort),
        tells_apart(matching(second, q), q.sort),
        is_sorting(matching(first, q), q.sort, a),
        is_sorting(matching(second, q), q.sort, b),
    ensures
        a == b,
        a.no_duplicates(),
        forall|l: ListingView| #[trigger]
            a.contains(l) <==> (exists|k: Seq<char>| #[trigger] m.dom().contains(k) && m[k] == l)
                && matches_query(l, q),
{
    let x = matching(first, q);
    let y = matching(second, q);
    lemma_walk_distinct(m, first);
    lemma_walk_distinct(m, second);
    lemma_matching_distinct(first, q);
    lemma_matching_distinct(second, q);
    lemma_sorting_ascends(x, q.sort, a);
    lemma_sorting_ascends(y, q.sort, b);
    lemma_reverses_fewer(x, a, q.sort);
    lemma_reverses_fewer(y, b, q.sort);
    lemma_ascending_distinct(a, q.sort);
    lemma_ascending_distinct(b, q.sort);
    lemma_all_there(x, a);
    lemma_all_there(y, b);
    law_matching_is_exact(m, first, q);
    law_matching_is_exact(m, second, q);
    assert forall|l: ListingView| #[trigger] a.contains(l) <==> b.contains(l) by {
        assert(x.contains(l) <==> y.contains(l));
    }
    lemma_ascending_same(a, b, q.sort);
    assert forall|l: ListingView| #[trigger]
        a.contains(l) <==> (exists|k: Seq<char>| #[trigger] m.dom().contains(k) && m[k] == l)
            && matches_query(l, q) by {
        assert(x.contains(l) <==> a.contains(l));
    }
}

/// Pages that are asked for one after the other while the listings stay as they are,
/// from the first until one has no next, hold every room that matches exactly once,
/// where the keys tell the rooms that match apart: which of two equal listings comes
/// first may differ from call to call.
pub proof fn law_following_pages_gives_every_room(
    m: Map<Seq<char>, ListingView>,
    q: QueryView,
    walks: Seq<Seq<ListingView>>,
    pages: Seq<RoomQueryResult>,
)
    requires
        !q.count,
        under_own_ids(m),
        is_chain(pages),
        walks.len() == pages.len(),
        forall|i: int|
            0 <= i < pages.len() ==> is_walk(m, #[trigger] walks[i]) && tells_apart(
                matching(walks[i], q),
                q.sort,
            ) && is_answer(walks[i], nth_query(q, pages, i), pages[i]),
    ensures
        page_items(pages).no_duplicates(),
        forall|l: ListingView| #[trigger]
            page_items(pages).contains(l) <==> (exists|k: Seq<char>| #[trigger]
                m.dom().contains(k) && m[k] == l) && matches_query(l, q),
{
    assert(is_answer(walks[0], nth_query(q, pages, 0), pages[0]));
    lemma_matching_any_page(walks[0], q, nth_query(q, pages, 0).offset);
    let a = choose|a: Seq<ListingView>| #[trigger]
        is_sorting(matching(walks[0], nth_query(q, pages, 0)), q.sort, a) && is_page(
            a,
            nth_query(q, pages, 0),
            pages[0],
        );
    law_order_is_fixed(m, q, walks[0], walks[0], a, a);
    assert forall|i: int| 0 <= i < pages.len() implies #[trigger] is_page(
        a,
        nth_query(q, pages, i),
        pages[i],
    ) by {
        let n = nth_query(q, pages, i);
        assert(is_answer(walks[i], n, pages[i]));
        lemma_matching_any_page(walks[i], q, n.offset);
        let b = choose|b: Seq<ListingView>| #[trigger]
            is_sorting(matching(walks[i], n), n.sort, b) && is_page(b, n, pages[i]);
        law_order_is_fixed(m, q, walks[0], walks[i], a, b);
    }
    law_pages_hold_answer(a, q, pages);
}

// ---------------------------------------------------------------------
// pages of calls that walk the listings alike
// ---------------------------------------------------------------------

/// A sorting holds the listings, each once.
proof fn lemma_sorting_holds(
    ls: Seq<ListingView>,
    sort: Seq<(Seq<char>, int)>,
    out: Seq<ListingView>,
)
    requires
        ls.no_duplicates(),
        is_sorting(ls, sort, out),
    ensures
        out.no_duplicates(),
        forall|l: ListingView| #[trigger] out.contains(l) <==> ls.contains(l),
{
    if sort.len() > 0 {
        let p = choose|p: Seq<int>| #[trigger]
            is_permutation(p, ls.len() as int) && out == p.map_values(|i: int| ls[i]) && (
            consistent(flat_views(ls), sort) ==> is_sorted_by(p, flat_views(ls), sort));
        assert forall|i: int, j: int| 0 <= i < out.len() && 0 <= j < out.len() && i != j implies
            out[i] != out[j] by {
            assert(p[i] != p[j]);
            assert(out[i] == ls[p[i]]);
            assert(out[j] == ls[p[j]]);
        }
        assert forall|l: ListingView| out.contains(l) implies ls.contains(l) by {
            let i = choose|i: int| 0 <= i < out.len() && out[i] == l;
            assert(ls[p[i]] == l);
        }
        lemma_all_there(ls, out);
    }
}

/// Without keys, or with keys that order the listings consistently, there is one
/// way to sort them.
proof fn lemma_one_sorting(
    ls: Seq<ListingView>,
    sort: Seq<(Seq<char>, int)>,
    a: Seq<ListingView>,
    b: Seq<ListingView>,
)
    requires
        sort.len() == 0 || consistent(flat_views(ls), sort),
        is_sorting(ls, sort, a),
        is_sorting(ls, sort, b),
    ensures
        a == b,
{
    if sort.len() > 0 {
        let p = choose|p: Seq<int>| #[trigger]
            is_permutation(p, ls.len() as int) && a == p.map_values(|i: int| ls[i]) && (
            consistent(flat_views(ls), sort) ==> is_sorted_by(p, flat_views(ls), sort));
        let q = choose|q: Seq<int>| #[trigger]
            is_permutation(q, ls.len() as int) && b == q.map_values(|i: int| ls[i]) && (
            consistent(flat_views(ls), sort) ==> is_sorted_by(q, flat_views(ls), sort));
        law_sorting_unique(p, q, flat_views(ls), sort);
    }
}

/// Pages that are asked for one after the other while the listings stay as they are
/// and are walked in the same order each time, from the first until one has no
/// next, hold every room that matches exactly once: without sort keys, and with
/// keys that order the rooms consistently, also where they tell some of them not
/// apart.
pub proof fn law_pages_of_one_walk_give_every_room(
    m: Map<Seq<char>, ListingView>,
    q: QueryView,
    all: Seq<ListingView>,
    pages: Seq<RoomQueryResult>,
)
    requires
        !q.count,
        under_own_ids(m),
        is_walk(m, all),
        q.sort.len() == 0 || consistent(flat_views(matching(all, q)), q.sort),
        is_chain(pages),
        forall|i: int|
            0 <= i < pages.len() ==> is_answer(all, #[trigger] nth_query(q, pages, i), pages[i]),
    ensures
        page_items(pages).no_duplicates(),
        forall|l: ListingView| #[trigger]
            page_items(pages).contains(l) <==> (exists|k: Seq<char>| #[trigger]
                m.dom().contains(k) && m[k] == l) && matches_query(l, q),
{
    let x = matching(all, q);
    let first = nth_query(q, pages, 0);
    assert(is_answer(all, first, pages[0]));
    lemma_matching_any_page(all, q, first.offset);
    let a = choose|a: Seq<ListingView>| #[trigger]
        is_sorting(matching(all, first), q.sort, a) && is_page(a, first, pages[0]);
    assert forall|i: int| 0 <= i < pages.len() implies #[trigger] is_page(
        a,
        nth_query(q, pages, i),
        pages[i],
    ) by {
        let n = nth_query(q, pages, i);
        assert(is_answer(all, n, pages[i]));
        lemma_matching_any_page(all, q, n.offset);
        let b = choose|b: Seq<ListingView>| #[trigger]
            is_sorting(matching(all, n), n.sort, b) && is_page(b, n, pages[i]);
        lemma_one_sorting(x, q.sort, a, b);
    }
    law_pages_hold_answer(a, q, pages);
    lemma_walk_distinct(m, all);
    lemma_matching_distinct(all, q);
    lemma_sorting_holds(x, q.sort, a);
    law_matching_is_exact(m, all, q);
    assert forall|l: ListingView| #[trigger]
        page_items(pages).contains(l) <==> (exists|k: Seq<char>| #[trigger]
            m.dom().contains(k) && m[k] == l) && matches_query(l, q) by {
        assert(a.contains(l) <==> x.contains(l));
    }
}

}
