//! The order that sort keys put listings in.

use crate::json::JsonView;
use crate::query::{field_value, value_order};
use crate::text::{
    lemma_text_less_irreflexive, lemma_text_less_total, lemma_text_less_transitive, text_less,
};
use crate::value::{is_number, Order};
use vstd::prelude::*;

verus! {

pub open spec fn reversed(o: Order) -> Order {
    match o {
        Order::Less => Order::Greater,
        Order::Equal => Order::Equal,
        Order::Greater => Order::Less,
    }
}

/// What a sort key compares: the field's value, or null where it has none.
pub open spec fn key_value(flat: JsonView, field: Seq<char>) -> JsonView {
    match field_value(flat, field) {
        Some(v) => v,
        None => JsonView::Null,
    }
}

/// How two listings stand to each other under one key. Values that cannot be
/// compared count as equal.
pub open spec fn key_order(a: JsonView, b: JsonView, key: (Seq<char>, int)) -> Order {
    let ord = match value_order(key_value(a, key.0), key_value(b, key.0)) {
        Some(o) => o,
        None => Order::Equal,
    };
    if key.1 < 0 {
        reversed(ord)
    } else {
        ord
    }
}

/// How two listings stand to each other: by the first key that tells them apart.
pub open spec fn listing_order(a: JsonView, b: JsonView, keys: Seq<(Seq<char>, int)>) -> Order
    decreases keys.len(),
{
    if keys.len() == 0 {
        Order::Equal
    } else if key_order(a, b, keys[0]) != Order::Equal {
        key_order(a, b, keys[0])
    } else {
        listing_order(a, b, keys.drop_first())
    }
}

/// The keys order the listings consistently: turning a pair round reverses its
/// order, and the order is transitive.
pub open spec fn consistent(fl: Seq<JsonView>, keys: Seq<(Seq<char>, int)>) -> bool {
    &&& forall|i: int, j: int|
        #![trigger listing_order(fl[i], fl[j], keys)]
        0 <= i < fl.len() && 0 <= j < fl.len() ==> listing_order(fl[i], fl[j], keys) == reversed(
            listing_order(fl[j], fl[i], keys),
        )
    &&& forall|i: int, j: int, k: int|
        #![trigger listing_order(fl[i], fl[j], keys), listing_order(fl[j], fl[k], keys)]
        0 <= i < fl.len() && 0 <= j < fl.len() && 0 <= k < fl.len() && listing_order(
            fl[i],
            fl[j],
            keys,
        ) != Order::Greater && listing_order(fl[j], fl[k], keys) != Order::Greater
            ==> listing_order(fl[i], fl[k], keys) != Order::Greater
}

/// The listing at `i` comes before that at `j`: by the keys or, where they tell
/// nothing apart, because it stood before it.
pub open spec fn comes_before(
    fl: Seq<JsonView>,
    keys: Seq<(Seq<char>, int)>,
    i: int,
    j: int,
) -> bool {
    let o = listing_order(fl[i], fl[j], keys);
    o == Order::Less || (o == Order::Equal && i < j)
}

/// `p` names each of the first `n` places once.
pub open spec fn is_permutation(p: Seq<int>, n: int) -> bool {
    &&& p.len() == n
    &&& forall|i: int| 0 <= i < n ==> 0 <= #[trigger] p[i] && p[i] < n
    &&& p.no_duplicates()
}

/// Each place that `p` names comes before the next ones.
pub open spec fn is_sorted_by(p: Seq<int>, fl: Seq<JsonView>, keys: Seq<(Seq<char>, int)>) -> bool {
    forall|i: int, j: int|
        #![trigger p[i], p[j]]
        0 <= i < j < p.len() ==> comes_before(fl, keys, p[i], p[j])
}

pub proof fn lemma_before_transitive(
    fl: Seq<JsonView>,
    keys: Seq<(Seq<char>, int)>,
    i: int,
    j: int,
    k: int,
)
    requires
        consistent(fl, keys),
        0 <= i < fl.len(),
        0 <= j < fl.len(),
        0 <= k < fl.len(),
        comes_before(fl, keys, i, j),
        comes_before(fl, keys, j, k),
    ensures
        comes_before(fl, keys, i, k),
{
    let ij = listing_order(fl[i], fl[j], keys);
    let jk = listing_order(fl[j], fl[k], keys);
    let ik = listing_order(fl[i], fl[k], keys);
    assert(ik != Order::Greater);
    if ik == Order::Equal {
        let ki = listing_order(fl[k], fl[i], keys);
        assert(ik == reversed(ki));
        let ji = listing_order(fl[j], fl[i], keys);
        assert(ij == reversed(ji));
        let kj = listing_order(fl[k], fl[j], keys);
        assert(jk == reversed(kj));
        assert(ji != Order::Greater);
        assert(kj != Order::Greater);
    }
}

pub proof fn lemma_before_total(fl: Seq<JsonView>, keys: Seq<(Seq<char>, int)>, i: int, j: int)
    requires
        consistent(fl, keys),
        0 <= i < fl.len(),
        0 <= j < fl.len(),
        i != j,
    ensures
        comes_before(fl, keys, i, j) <==> !comes_before(fl, keys, j, i),
{
    assert(listing_order(fl[i], fl[j], keys) == reversed(listing_order(fl[j], fl[i], keys)));
}

/// A new last place, put behind the places that do not come after it, leaves the
/// places in order.
pub proof fn lemma_insert_place(
    p: Seq<int>,
    fl: Seq<JsonView>,
    keys: Seq<(Seq<char>, int)>,
    n: int,
    pos: int,
)
    requires
        is_permutation(p, n),
        n < fl.len(),
        0 <= pos <= n,
        consistent(fl, keys) ==> is_sorted_by(p, fl, keys),
        forall|i: int|
            pos <= i < n ==> listing_order(fl[#[trigger] p[i]], fl[n], keys) == Order::Greater,
        pos > 0 ==> listing_order(fl[p[pos - 1]], fl[n], keys) != Order::Greater,
    ensures
        is_permutation(p.insert(pos, n), n + 1),
        consistent(fl, keys) ==> is_sorted_by(p.insert(pos, n), fl, keys),
{
    let q = p.insert(pos, n);
    assert forall|i: int| 0 <= i < n + 1 implies 0 <= #[trigger] q[i] && q[i] < n + 1 by {
        if i < pos {
            assert(q[i] == p[i]);
        } else if i > pos {
            assert(q[i] == p[i - 1]);
        }
    }
    assert forall|i: int, j: int| 0 <= i < q.len() && 0 <= j < q.len() && i != j implies q[i]
        != q[j] by {
        let a = if i < pos {
            i
        } else {
            i - 1
        };
        let b = if j < pos {
            j
        } else {
            j - 1
        };
        if i != pos && j != pos {
            assert(q[i] == p[a]);
            assert(q[j] == p[b]);
            assert(a != b);
        } else if i == pos {
            assert(q[j] == p[b]);
            assert(p[b] < n);
        } else {
            assert(q[i] == p[a]);
            assert(p[a] < n);
        }
    }
    if consistent(fl, keys) {
        assert forall|i: int, j: int|
            #![trigger q[i], q[j]]
            0 <= i < j < q.len() implies comes_before(fl, keys, q[i], q[j]) by {
            if i < pos && j < pos {
                assert(comes_before(fl, keys, p[i], p[j]));
            } else if i < pos && j > pos {
                assert(comes_before(fl, keys, p[i], p[j - 1]));
            } else if i > pos {
                assert(comes_before(fl, keys, p[i - 1], p[j - 1]));
            } else if i == pos {
                assert(p[j - 1] < n);
                lemma_before_total(fl, keys, p[j - 1], n);
            } else {
                assert(p[pos - 1] < n);
                assert(comes_before(fl, keys, p[pos - 1], n));
                if i < pos - 1 {
                    assert(comes_before(fl, keys, p[i], p[pos - 1]));
                    assert(0 <= p[i] && p[i] < n);
                    lemma_before_transitive(fl, keys, p[i], p[pos - 1], n);
                }
            }
        }
    }
}

/// A consistent order leaves no choice: two ways of putting the same places in
/// order are the same.
pub proof fn law_sorting_unique(
    p: Seq<int>,
    q: Seq<int>,
    fl: Seq<JsonView>,
    keys: Seq<(Seq<char>, int)>,
)
    requires
        consistent(fl, keys),
        is_permutation(p, fl.len() as int),
        is_permutation(q, fl.len() as int),
        is_sorted_by(p, fl, keys),
        is_sorted_by(q, fl, keys),
    ensures
        p == q,
{
    let n = fl.len() as int;
    assert forall|x: int| p.contains(x) == q.contains(x) by {
        lemma_permutation_covers(p, n, x);
        lemma_permutation_covers(q, n, x);
    }
    lemma_sorted_same(p, q, fl, keys);
}

proof fn lemma_permutation_covers(p: Seq<int>, n: int, x: int)
    requires
        is_permutation(p, n),
    ensures
        p.contains(x) <==> 0 <= x < n,
{
    let s = p.to_set();
    let full = vstd::set_lib::set_int_range(0, n);
    vstd::set_lib::lemma_int_range(0, n);
    p.unique_seq_to_set();
    assert forall|y: int| s.contains(y) implies full.contains(y) by {
        let i = choose|i: int| 0 <= i < p.len() && p[i] == y;
        assert(0 <= p[i] && p[i] < n);
    }
    vstd::set_lib::lemma_subset_equality(s, full);
    assert(s.contains(x) <==> full.contains(x));
}

proof fn lemma_sorted_same(
    p: Seq<int>,
    q: Seq<int>,
    fl: Seq<JsonView>,
    keys: Seq<(Seq<char>, int)>,
)
    requires
        consistent(fl, keys),
        forall|i: int| 0 <= i < p.len() ==> 0 <= #[trigger] p[i] && p[i] < fl.len(),
        forall|i: int| 0 <= i < q.len() ==> 0 <= #[trigger] q[i] && q[i] < fl.len(),
        p.no_duplicates(),
        q.no_duplicates(),
        forall|x: int| p.contains(x) == q.contains(x),
        is_sorted_by(p, fl, keys),
        is_sorted_by(q, fl, keys),
    ensures
        p == q,
    decreases p.len(),
{
    if p.len() == 0 {
        if q.len() > 0 {
            assert(q.contains(q[0]));
        }
        assert(p =~= q);
    } else {
        assert(p.contains(p.last()));
        let j = choose|j: int| 0 <= j < q.len() && q[j] == p.last();
        assert(q.contains(q.last()));
        let i = choose|i: int| 0 <= i < p.len() && p[i] == q.last();
        if p.last() != q.last() {
            assert(comes_before(fl, keys, q[j], q[q.len() - 1]));
            assert(comes_before(fl, keys, p[i], p[p.len() - 1]));
            lemma_before_total(fl, keys, p.last(), q.last());
        }
        let p1 = p.drop_last();
        let q1 = q.drop_last();
        assert forall|x: int| p1.contains(x) == q1.contains(x) by {
            if p1.contains(x) {
                let k = choose|k: int| 0 <= k < p1.len() && p1[k] == x;
                assert(p[k] == x);
                assert(p.contains(x));
                let l = choose|l: int| 0 <= l < q.len() && q[l] == x;
                assert(p[k] != p[p.len() - 1]);
                assert(q1[l] == x);
            }
            if q1.contains(x) {
                let k = choose|k: int| 0 <= k < q1.len() && q1[k] == x;
                assert(q[k] == x);
                assert(q.contains(x));
                let l = choose|l: int| 0 <= l < p.len() && p[l] == x;
                assert(q[k] != q[q.len() - 1]);
                assert(p1[l] == x);
            }
        }
        assert forall|a: int, b: int|
            #![trigger p1[a], p1[b]]
            0 <= a < b < p1.len() implies comes_before(fl, keys, p1[a], p1[b]) by {
            assert(comes_before(fl, keys, p[a], p[b]));
        }
        assert forall|a: int, b: int|
            #![trigger q1[a], q1[b]]
            0 <= a < b < q1.len() implies comes_before(fl, keys, q1[a], q1[b]) by {
            assert(comes_before(fl, keys, q[a], q[b]));
        }
        assert forall|k: int| 0 <= k < p1.len() implies 0 <= #[trigger] p1[k] && p1[k]
            < fl.len() by {
            assert(p1[k] == p[k]);
        }
        assert forall|k: int| 0 <= k < q1.len() implies 0 <= #[trigger] q1[k] && q1[k]
            < fl.len() by {
            assert(q1[k] == q[k]);
        }
        lemma_sorted_same(p1, q1, fl, keys);
        assert(p =~= p1.push(p.last()));
        assert(q =~= q1.push(q.last()));
    }
}

// ---------------------------------------------------------------------
// keys that order consistently
// ---------------------------------------------------------------------

/// The values that can be compared with each other.
pub open spec fn value_kind(v: JsonView) -> int {
    if is_number(v) {
        0
    } else if v is Str {
        1
    } else if v is Bool {
        2
    } else {
        3
    }
}

/// Under each key, the listings hold values of one kind: all numbers, all texts,
/// all truth values, or nothing that can be compared.
pub open spec fn uniform(fl: Seq<JsonView>, keys: Seq<(Seq<char>, int)>) -> bool {
    forall|k: int, i: int, j: int|
        #![trigger keys[k], fl[i], fl[j]]
        0 <= k < keys.len() && 0 <= i < fl.len() && 0 <= j < fl.len() ==> value_kind(
            key_value(fl[i], keys[k].0),
        ) == value_kind(key_value(fl[j], keys[k].0))
}

proof fn lemma_key_order_pair(a: JsonView, b: JsonView, key: (Seq<char>, int))
    requires
        value_kind(key_value(a, key.0)) == value_kind(key_value(b, key.0)),
    ensures
        key_order(a, b, key) == reversed(key_order(b, a, key)),
{
    let x = key_value(a, key.0);
    let y = key_value(b, key.0);
    if x is Str {
        let s = x->Str_0;
        let t = y->Str_0;
        lemma_text_less_irreflexive(s);
        if s != t {
            lemma_text_less_total(s, t);
            if text_less(s, t) && text_less(t, s) {
                lemma_text_less_transitive(s, t, s);
            }
        }
    }
}

proof fn lemma_key_order_transitive(a: JsonView, b: JsonView, c: JsonView, key: (Seq<char>, int))
    requires
        value_kind(key_value(a, key.0)) == value_kind(key_value(b, key.0)),
        value_kind(key_value(b, key.0)) == value_kind(key_value(c, key.0)),
    ensures
        key_order(a, b, key) != Order::Greater && key_order(b, c, key) != Order::Greater
            ==> key_order(a, c, key) != Order::Greater,
        key_order(a, b, key) != Order::Greater && key_order(b, c, key) != Order::Greater
            && key_order(a, c, key) == Order::Equal ==> key_order(a, b, key) == Order::Equal
            && key_order(b, c, key) == Order::Equal,
        key_order(a, b, key) == Order::Equal && key_order(b, c, key) == Order::Equal
            ==> key_order(a, c, key) == Order::Equal,
{
    let x = key_value(a, key.0);
    let y = key_value(b, key.0);
    let z = key_value(c, key.0);
    lemma_key_order_pair(a, b, key);
    lemma_key_order_pair(b, c, key);
    lemma_key_order_pair(a, c, key);
    if x is Str {
        let s = x->Str_0;
        let t = y->Str_0;
        let u = z->Str_0;
        lemma_text_less_irreflexive(s);
        lemma_text_less_irreflexive(t);
        if s != t {
            lemma_text_less_total(s, t);
        }
        if t != u {
            lemma_text_less_total(t, u);
        }
        if s != u {
            lemma_text_less_total(s, u);
        }
        if text_less(s, t) && text_less(t, u) {
            lemma_text_less_transitive(s, t, u);
        }
        if text_less(u, t) && text_less(t, s) {
            lemma_text_less_transitive(u, t, s);
        }
        if text_less(s, t) && text_less(t, s) {
            lemma_text_less_transitive(s, t, s);
        }
        if text_less(t, u) && text_less(u, t) {
            lemma_text_less_transitive(t, u, t);
        }
        if text_less(s, u) && text_less(u, s) {
            lemma_text_less_transitive(s, u, s);
        }
    }
}

proof fn lemma_order_pair(a: JsonView, b: JsonView, keys: Seq<(Seq<char>, int)>)
    requires
        forall|k: int|
            0 <= k < keys.len() ==> value_kind(key_value(a, (#[trigger] keys[k]).0)) == value_kind(
                key_value(b, keys[k].0),
            ),
    ensures
        listing_order(a, b, keys) == reversed(listing_order(b, a, keys)),
    decreases keys.len(),
{
    if keys.len() > 0 {
        lemma_key_order_pair(a, b, keys[0]);
        assert forall|k: int| 0 <= k < keys.drop_first().len() implies value_kind(
            key_value(a, (#[trigger] keys.drop_first()[k]).0),
        ) == value_kind(key_value(b, keys.drop_first()[k].0)) by {
            assert(keys.drop_first()[k] == keys[k + 1]);
        }
        lemma_order_pair(a, b, keys.drop_first());
    }
}

proof fn lemma_order_transitive(
    a: JsonView,
    b: JsonView,
    c: JsonView,
    keys: Seq<(Seq<char>, int)>,
)
    requires
        forall|k: int|
            0 <= k < keys.len() ==> value_kind(key_value(a, (#[trigger] keys[k]).0)) == value_kind(
                key_value(b, keys[k].0),
            ) && value_kind(key_value(b, keys[k].0)) == value_kind(key_value(c, keys[k].0)),
        listing_order(a, b, keys) != Order::Greater,
        listing_order(b, c, keys) != Order::Greater,
    ensures
        listing_order(a, c, keys) != Order::Greater,
    decreases keys.len(),
{
    if keys.len() > 0 {
        lemma_key_order_transitive(a, b, c, keys[0]);
        let rest = keys.drop_first();
        assert forall|k: int| 0 <= k < rest.len() implies value_kind(
            key_value(a, (#[trigger] rest[k]).0),
        ) == value_kind(key_value(b, rest[k].0)) && value_kind(key_value(b, rest[k].0))
            == value_kind(key_value(c, rest[k].0)) by {
            assert(rest[k] == keys[k + 1]);
        }
        if key_order(a, c, keys[0]) == Order::Equal {
            lemma_order_transitive(a, b, c, rest);
        }
    }
}

/// Where each key holds values of one kind in all listings, the keys order the
/// listings consistently.
pub proof fn law_uniform_keys_consistent(fl: Seq<JsonView>, keys: Seq<(Seq<char>, int)>)
    requires
        uniform(fl, keys),
    ensures
        consistent(fl, keys),
{
    assert forall|i: int, j: int|
        #![trigger listing_order(fl[i], fl[j], keys)]
        0 <= i < fl.len() && 0 <= j < fl.len() implies listing_order(fl[i], fl[j], keys)
        == reversed(listing_order(fl[j], fl[i], keys)) by {
        assert forall|k: int| 0 <= k < keys.len() implies value_kind(
            key_value(fl[i], (#[trigger] keys[k]).0),
        ) == value_kind(key_value(fl[j], keys[k].0)) by {
            assert(fl[i] == fl[i] && fl[j] == fl[j]);
        }
        lemma_order_pair(fl[i], fl[j], keys);
    }
    assert forall|i: int, j: int, k: int|
        #![trigger listing_order(fl[i], fl[j], keys), listing_order(fl[j], fl[k], keys)]
        0 <= i < fl.len() && 0 <= j < fl.len() && 0 <= k < fl.len() && listing_order(
            fl[i],
            fl[j],
            keys,
        ) != Order::Greater && listing_order(fl[j], fl[k], keys) != Order::Greater
        implies listing_order(fl[i], fl[k], keys) != Order::Greater by {
        assert forall|l: int| 0 <= l < keys.len() implies value_kind(
            key_value(fl[i], (#[trigger] keys[l]).0),
        ) == value_kind(key_value(fl[j], keys[l].0)) && value_kind(key_value(fl[j], keys[l].0))
            == value_kind(key_value(fl[k], keys[l].0)) by {
            assert(fl[i] == fl[i] && fl[j] == fl[j] && fl[k] == fl[k]);
        }
        lemma_order_transitive(fl[i], fl[j], fl[k], keys);
    }
}

}
