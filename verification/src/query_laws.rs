//! What the parameters of a room query ask for, from their text to the rooms that
//! they find.

use crate::driver::{
    flat_view, flat_views, is_page, is_sorting, listing_fields, listing_views, matches_query,
    ListingView, RoomQueryResult,
};
use crate::handler::lemma_plain_field;
use crate::json::JsonView;
use crate::query::{
    condition_holds, field_value, parsed_condition, parsed_value, sort_key, values_equal,
    with_param, QueryView,
};
use crate::sorting::{
    consistent, is_permutation, is_sorted_by, key_value, law_uniform_keys_consistent, listing_order,
    uniform, value_kind,
};
use crate::text::{
    decimal, lemma_decimal_value, lemma_last_split, lemma_pieces_first, lemma_text_less_irreflexive,
    lemma_text_less_total, lemma_text_less_transitive, pieces, signed_decimal, signed_value,
    text_less, unsigned_value,
};
use crate::value::{double_text, law_numbers_in_order, Order};
use vstd::prelude::*;

verus! {

/// A parameter asks about a field.
pub open spec fn asks_about(key: Seq<char>, raw: Seq<char>, field: Seq<char>) -> bool {
    parsed_condition(key, raw) matches Ok(c) && c.0 == field
}

/// What a parameter asks for holds of a field's value, or of the field's absence.
pub open spec fn is_met(key: Seq<char>, raw: Seq<char>, actual: Option<JsonView>) -> bool {
    parsed_condition(key, raw) matches Ok(c) && condition_holds(actual, c.1)
}

/// A whole number that a double holds exactly, as all numbers in between.
pub open spec fn is_exact(n: int) -> bool {
    -0x20_0000_0000_0000 <= n <= 0x20_0000_0000_0000
}

proof fn lemma_op_names()
    ensures
        ".eq"@ == seq!['.'] + "eq"@,
        ".ne"@ == seq!['.'] + "ne"@,
        ".gt"@ == seq!['.'] + "gt"@,
        ".gte"@ == seq!['.'] + "gte"@,
        ".lt"@ == seq!['.'] + "lt"@,
        ".lte"@ == seq!['.'] + "lte"@,
        ".in"@ == seq!['.'] + "in"@,
        ".exists"@ == seq!['.'] + "exists"@,
        ".notExists"@ == seq!['.'] + "notExists"@,
        "eq"@ == seq!['e', 'q'],
        "ne"@ == seq!['n', 'e'],
        "gt"@ == seq!['g', 't'],
        "gte"@ == seq!['g', 't', 'e'],
        "lt"@ == seq!['l', 't'],
        "lte"@ == seq!['l', 't', 'e'],
        "in"@ == seq!['i', 'n'],
        "exists"@ == seq!['e', 'x', 'i', 's', 't', 's'],
        "notExists"@ == seq!['n', 'o', 't', 'E', 'x', 'i', 's', 't', 's'],
{
    reveal_strlit(".eq");
    reveal_strlit(".ne");
    reveal_strlit(".gt");
    reveal_strlit(".gte");
    reveal_strlit(".lt");
    reveal_strlit(".lte");
    reveal_strlit(".in");
    reveal_strlit(".exists");
    reveal_strlit(".notExists");
    reveal_strlit("eq");
    reveal_strlit("ne");
    reveal_strlit("gt");
    reveal_strlit("gte");
    reveal_strlit("lt");
    reveal_strlit("lte");
    reveal_strlit("in");
    reveal_strlit("exists");
    reveal_strlit("notExists");
    assert(".eq"@ =~= seq!['.'] + "eq"@);
    assert(".ne"@ =~= seq!['.'] + "ne"@);
    assert(".gt"@ =~= seq!['.'] + "gt"@);
    assert(".gte"@ =~= seq!['.'] + "gte"@);
    assert(".lt"@ =~= seq!['.'] + "lt"@);
    assert(".lte"@ =~= seq!['.'] + "lte"@);
    assert(".in"@ =~= seq!['.'] + "in"@);
    assert(".exists"@ =~= seq!['.'] + "exists"@);
    assert(".notExists"@ =~= seq!['.'] + "notExists"@);
    assert("eq"@ =~= seq!['e', 'q']);
    assert("ne"@ =~= seq!['n', 'e']);
    assert("gt"@ =~= seq!['g', 't']);
    assert("gte"@ =~= seq!['g', 't', 'e']);
    assert("lt"@ =~= seq!['l', 't']);
    assert("lte"@ =~= seq!['l', 't', 'e']);
    assert("in"@ =~= seq!['i', 'n']);
    assert("exists"@ =~= seq!['e', 'x', 'i', 's', 't', 's']);
    assert("notExists"@ =~= seq!['n', 'o', 't', 'E', 'x', 'i', 's', 't', 's']);
}

/// The parts of a name with an operator behind its last dot.
proof fn lemma_op_key(field: Seq<char>, op: Seq<char>)
    requires
        forall|k: int| 0 <= k < op.len() ==> op[k] != '.',
    ensures
        crate::text::last_split(field + (seq!['.'] + op), '.') == Some((field, op)),
{
    let key = field + (seq!['.'] + op);
    let i = field.len() as int;
    assert(key[i] == '.');
    assert forall|k: int| i < k < key.len() implies key[k] != '.' by {
        assert(key[k] == op[k - i - 1]);
    }
    lemma_last_split(key, '.', i);
    assert(key.take(i) =~= field);
    assert(key.skip(i + 1) =~= op);
}

/// A name without a dot is a field.
proof fn lemma_plain_key(field: Seq<char>)
    requires
        !field.contains('.'),
    ensures
        crate::text::last_split(field, '.') is None,
{
    if field.len() > 0 {
        assert forall|k: int| -1 < k < field.len() implies field[k] != '.' by {
            assert(field.contains(field[k]));
        }
        lemma_last_split(field, '.', -1);
    }
}

/// What each name of a parameter stands for.
proof fn lemma_conditions(field: Seq<char>, raw: Seq<char>, actual: Option<JsonView>)
    requires
        field.len() > 0,
    ensures
        asks_about(field + ".eq"@, raw, field),
        asks_about(field + ".ne"@, raw, field),
        asks_about(field + ".gt"@, raw, field),
        asks_about(field + ".gte"@, raw, field),
        asks_about(field + ".lt"@, raw, field),
        asks_about(field + ".lte"@, raw, field),
        asks_about(field + ".in"@, raw, field),
        !field.contains('.') ==> asks_about(field, raw, field) && is_met(field, raw, actual)
            == is_met(field + ".eq"@, raw, actual),
        raw == "true"@ || raw == "false"@ ==> asks_about(field + ".exists"@, raw, field)
            && asks_about(field + ".notExists"@, raw, field),
        raw == "true"@ ==> is_met(field + ".exists"@, raw, actual) == actual is Some && is_met(
            field + ".notExists"@,
            raw,
            actual,
        ) == actual is None,
        raw == "false"@ ==> is_met(field + ".exists"@, raw, actual) == actual is None && is_met(
            field + ".notExists"@,
            raw,
            actual,
        ) == actual is Some,
        actual is None ==> !is_met(field + ".eq"@, raw, actual) && is_met(
            field + ".ne"@,
            raw,
            actual,
        ) && !is_met(field + ".gt"@, raw, actual) && !is_met(field + ".gte"@, raw, actual)
            && !is_met(field + ".lt"@, raw, actual) && !is_met(field + ".lte"@, raw, actual)
            && !is_met(field + ".in"@, raw, actual),
        actual matches Some(a) ==> {
            let v = parsed_value(raw);
            let order = crate::query::value_order(a, v);
            &&& is_met(field + ".eq"@, raw, actual) == values_equal(a, v)
            &&& is_met(field + ".ne"@, raw, actual) == !values_equal(a, v)
            &&& is_met(field + ".gt"@, raw, actual) == (order == Some(Order::Greater))
            &&& is_met(field + ".gte"@, raw, actual) == (order == Some(Order::Greater) || order
                == Some(Order::Equal))
            &&& is_met(field + ".lt"@, raw, actual) == (order == Some(Order::Less))
            &&& is_met(field + ".lte"@, raw, actual) == (order == Some(Order::Less) || order
                == Some(Order::Equal))
            &&& is_met(field + ".in"@, raw, actual) == exists|i: int|
                0 <= i < pieces(raw, ',').len() && values_equal(
                    a,
                    parsed_value(#[trigger] pieces(raw, ',')[i]),
                )
        },
{
    lemma_op_names();
    lemma_op_key(field, "eq"@);
    lemma_op_key(field, "ne"@);
    lemma_op_key(field, "gt"@);
    lemma_op_key(field, "gte"@);
    lemma_op_key(field, "lt"@);
    lemma_op_key(field, "lte"@);
    lemma_op_key(field, "in"@);
    lemma_op_key(field, "exists"@);
    lemma_op_key(field, "notExists"@);
    if !field.contains('.') {
        lemma_plain_key(field);
    }
    reveal_strlit("true");
    reveal_strlit("false");
    assert("true"@.len() != "false"@.len());
    assert("gt"@ != "eq"@ && "gt"@ != "ne"@) by {
        assert("gt"@[0] == 'g' && "eq"@[0] == 'e' && "ne"@[0] == 'n');
    }
    assert("ne"@ != "eq"@) by {
        assert("ne"@[0] == 'n' && "eq"@[0] == 'e');
    }
    assert("lt"@ != "eq"@ && "lt"@ != "ne"@ && "lt"@ != "gt"@) by {
        assert("lt"@[0] == 'l' && "eq"@[0] == 'e' && "ne"@[0] == 'n' && "gt"@[0] == 'g');
    }
    assert("in"@ != "eq"@ && "in"@ != "ne"@ && "in"@ != "gt"@ && "in"@ != "lt"@) by {
        assert("in"@[0] == 'i' && "eq"@[0] == 'e' && "ne"@[0] == 'n' && "gt"@[0] == 'g'
            && "lt"@[0] == 'l');
    }
    assert("lte"@ != "gte"@) by {
        assert("lte"@[0] == 'l' && "gte"@[0] == 'g');
    }
    assert("eq"@.len() == 2 && "ne"@.len() == 2 && "gt"@.len() == 2 && "lt"@.len() == 2
        && "in"@.len() == 2 && "gte"@.len() == 3 && "lte"@.len() == 3 && "exists"@.len() == 6
        && "notExists"@.len() == 9);
    if let Some(a) = actual {
        let items = pieces(raw, ',').map_values(|t: Seq<char>| parsed_value(t));
        let some = exists|i: int|
            0 <= i < pieces(raw, ',').len() && values_equal(
                a,
                parsed_value(#[trigger] pieces(raw, ',')[i]),
            );
        if some {
            let i = choose|i: int|
                0 <= i < pieces(raw, ',').len() && values_equal(
                    a,
                    parsed_value(#[trigger] pieces(raw, ',')[i]),
                );
            assert(values_equal(a, items[i]));
        }
        if crate::query::equals_one(a, items) {
            let i = choose|i: int| 0 <= i < items.len() && values_equal(a, #[trigger] items[i]);
            assert(values_equal(a, parsed_value(pieces(raw, ',')[i])));
        }
    }
}

/// A whole number's digits are read as the number.
proof fn lemma_reads_number(m: int)
    requires
        -0x8000_0000_0000_0000 <= m <= 0x7fff_ffff_ffff_ffff,
    ensures
        signed_value(signed_decimal(m)) == Some(m),
        parsed_value(signed_decimal(m)) == JsonView::Int(m),
{
    let n = if m < 0 {
        (-m) as nat
    } else {
        m as nat
    };
    lemma_decimal_value(n);
    let d = decimal(n);
    assert('0' <= d[0] && d[0] <= '9');
    if m < 0 {
        assert(signed_decimal(m).skip(1) =~= d);
    }
}

/// What a parameter with a whole number asks of a field that holds one: `eq`, `ne`,
/// `gt`, `gte`, `lt` and `lte` compare the two numbers, and a field's name alone asks
/// for equality. A field that is not there meets none of them but `ne`.
pub proof fn law_parameters_compare_numbers(field: Seq<char>, n: int, m: int)
    requires
        field.len() > 0,
        is_exact(n),
        is_exact(m),
    ensures
        ({
            let raw = signed_decimal(m);
            let actual = Some(JsonView::Int(n));
            &&& asks_about(field + ".eq"@, raw, field)
            &&& asks_about(field + ".ne"@, raw, field)
            &&& asks_about(field + ".gt"@, raw, field)
            &&& asks_about(field + ".gte"@, raw, field)
            &&& asks_about(field + ".lt"@, raw, field)
            &&& asks_about(field + ".lte"@, raw, field)
            &&& is_met(field + ".eq"@, raw, actual) <==> n == m
            &&& is_met(field + ".ne"@, raw, actual) <==> n != m
            &&& is_met(field + ".gt"@, raw, actual) <==> n > m
            &&& is_met(field + ".gte"@, raw, actual) <==> n >= m
            &&& is_met(field + ".lt"@, raw, actual) <==> n < m
            &&& is_met(field + ".lte"@, raw, actual) <==> n <= m
            &&& !field.contains('.') ==> asks_about(field, raw, field) && (is_met(
                field,
                raw,
                actual,
            ) <==> n == m)
            &&& !is_met(field + ".eq"@, raw, None)
            &&& is_met(field + ".ne"@, raw, None)
            &&& !is_met(field + ".gt"@, raw, None)
            &&& !is_met(field + ".gte"@, raw, None)
            &&& !is_met(field + ".lt"@, raw, None)
            &&& !is_met(field + ".lte"@, raw, None)
        }),
{
    let raw = signed_decimal(m);
    let a = JsonView::Int(n);
    lemma_reads_number(m);
    lemma_conditions(field, raw, Some(a));
    lemma_conditions(field, raw, None);
    law_numbers_in_order(a, JsonView::Int(m));
}

/// What a parameter with a text that spells nothing else asks of a field that holds a
/// text.
pub proof fn law_parameters_compare_texts(field: Seq<char>, a: Seq<char>, raw: Seq<char>)
    requires
        field.len() > 0,
        signed_value(raw) is None,
        double_text(raw) is None,
        raw != "true"@,
        raw != "false"@,
        raw != "null"@,
    ensures
        ({
            let actual = Some(JsonView::Str(a));
            &&& is_met(field + ".eq"@, raw, actual) <==> a == raw
            &&& is_met(field + ".ne"@, raw, actual) <==> a != raw
            &&& is_met(field + ".gt"@, raw, actual) <==> text_less(raw, a)
            &&& is_met(field + ".gte"@, raw, actual) <==> text_less(raw, a) || a == raw
            &&& is_met(field + ".lt"@, raw, actual) <==> text_less(a, raw)
            &&& is_met(field + ".lte"@, raw, actual) <==> text_less(a, raw) || a == raw
            &&& !field.contains('.') ==> (is_met(field, raw, actual) <==> a == raw)
        }),
{
    lemma_conditions(field, raw, Some(JsonView::Str(a)));
    lemma_text_less_irreflexive(a);
    if a != raw {
        lemma_text_less_total(a, raw);
        if text_less(a, raw) && text_less(raw, a) {
            lemma_text_less_transitive(a, raw, a);
        }
    }
}

/// Texts stand in the order of their first characters that differ, and a text before
/// every longer one that starts with it.
pub proof fn law_text_order(head: Seq<char>, x: char, y: char, a: Seq<char>, b: Seq<char>)
    ensures
        x < y ==> text_less(head + seq![x] + a, head + seq![y] + b),
        text_less(head, head + seq![x] + a),
    decreases head.len(),
{
    let p = head + seq![x] + a;
    let q = head + seq![y] + b;
    if head.len() > 0 {
        law_text_order(head.drop_first(), x, y, a, b);
        assert(p.drop_first() =~= head.drop_first() + seq![x] + a);
        assert(q.drop_first() =~= head.drop_first() + seq![y] + b);
    }
}

/// `in` asks for any of the listed values: for the first one, or for any of the rest.
pub proof fn law_in_asks_for_any(
    field: Seq<char>,
    first: Seq<char>,
    rest: Seq<char>,
    actual: Option<JsonView>,
)
    requires
        field.len() > 0,
        !first.contains(','),
    ensures
        is_met(field + ".in"@, first, actual) <==> is_met(field + ".eq"@, first, actual),
        is_met(field + ".in"@, first + seq![','] + rest, actual) <==> is_met(
            field + ".eq"@,
            first,
            actual,
        ) || is_met(field + ".in"@, rest, actual),
{
    let whole = first + seq![','] + rest;
    lemma_conditions(field, first, actual);
    lemma_conditions(field, rest, actual);
    lemma_conditions(field, whole, actual);
    lemma_pieces_first(first, rest, ',');
    if let Some(a) = actual {
        let all = pieces(whole, ',');
        let others = pieces(rest, ',');
        assert(all == seq![first] + others);
        assert(pieces(first, ',')[0] == first);
        if values_equal(a, parsed_value(first)) {
            assert(all[0] == first);
        }
        if is_met(field + ".in"@, rest, actual) {
            let i = choose|i: int|
                0 <= i < others.len() && values_equal(a, parsed_value(#[trigger] others[i]));
            assert(all[i + 1] == others[i]);
        }
        if is_met(field + ".in"@, whole, actual) {
            let i = choose|i: int|
                0 <= i < all.len() && values_equal(a, parsed_value(#[trigger] all[i]));
            if i > 0 {
                assert(all[i] == others[i - 1]);
            }
        }
    }
}

/// `exists` asks whether a field is there, `notExists` whether it is not, and the
/// value `false` turns both round.
pub proof fn law_exists_asks_for_presence(field: Seq<char>, actual: Option<JsonView>)
    requires
        field.len() > 0,
    ensures
        is_met(field + ".exists"@, "true"@, actual) <==> actual is Some,
        is_met(field + ".exists"@, "false"@, actual) <==> actual is None,
        is_met(field + ".notExists"@, "true"@, actual) <==> actual is None,
        is_met(field + ".notExists"@, "false"@, actual) <==> actual is Some,
{
    lemma_conditions(field, "true"@, actual);
    lemma_conditions(field, "false"@, actual);
}

// ---------------------------------------------------------------------
// queries
// ---------------------------------------------------------------------

/// The fields that every listing shows.
pub proof fn law_listing_shows_itself(l: ListingView)
    ensures
        ({
            let f = listing_fields(l);
            &&& f.dom().contains("roomId"@) && f["roomId"@] == JsonView::Str(l.room_id)
            &&& f.dom().contains("name"@) && f["name"@] == JsonView::Str(l.name)
            &&& f.dom().contains("processId"@) && f["processId"@] == JsonView::Str(l.process_id)
            &&& f.dom().contains("clients"@) && f["clients"@] == JsonView::Int(l.clients as int)
            &&& f.dom().contains("locked"@) && f["locked"@] == JsonView::Bool(l.locked)
            &&& f.dom().contains("private"@) && f["private"@] == JsonView::Bool(l.is_private)
            &&& f.dom().contains("createdAt"@) && f["createdAt"@] == JsonView::Int(
                l.created_at as int,
            )
            &&& f.dom().contains("maxClients"@) <==> l.max_clients is Some
            &&& l.max_clients matches Some(n) ==> f["maxClients"@] == JsonView::Int(n as int)
            &&& f.dom().contains("metadata"@) <==> l.metadata is Some
            &&& l.metadata matches Some(v) ==> f["metadata"@] == v
        }),
{
    reveal_strlit("roomId");
    reveal_strlit("name");
    reveal_strlit("processId");
    reveal_strlit("clients");
    reveal_strlit("maxClients");
    reveal_strlit("locked");
    reveal_strlit("private");
    reveal_strlit("metadata");
    reveal_strlit("createdAt");
    assert("roomId"@.len() == 6 && "name"@.len() == 4 && "processId"@.len() == 9
        && "clients"@.len() == 7 && "maxClients"@.len() == 10 && "locked"@.len() == 6
        && "private"@.len() == 7 && "metadata"@.len() == 8 && "createdAt"@.len() == 9);
    assert("roomId"@[0] != "locked"@[0]);
    assert("clients"@[0] != "private"@[0]);
    assert("processId"@[0] != "createdAt"@[0]);
}

/// A field of a listing, under a name without a dot: what the room was created with
/// stands over what every listing shows.
pub proof fn law_listed_field(l: ListingView, f: Seq<char>)
    requires
        !f.contains('.'),
    ensures
        l.extra.dom().contains(f) ==> field_value(flat_view(l), f) == Some(l.extra[f]),
        !l.extra.dom().contains(f) && listing_fields(l).dom().contains(f) ==> field_value(
            flat_view(l),
            f,
        ) == Some(listing_fields(l)[f]),
        !l.extra.dom().contains(f) && !listing_fields(l).dom().contains(f) ==> field_value(
            flat_view(l),
            f,
        ) is None,
{
    lemma_plain_field(listing_fields(l).union_prefer_right(l.extra), f);
}

/// One more filter finds those rooms that were found without it and meet it.
pub proof fn law_filters_narrow(q: QueryView, key: Seq<char>, raw: Seq<char>, l: ListingView)
    requires
        key != "name"@,
        key != "sort"@,
        key != "limit"@,
        key != "offset"@,
        key != "count"@,
        parsed_condition(key, raw) is Ok,
    ensures
        ({
            let with = with_param(q, key, raw);
            let field = parsed_condition(key, raw)->Ok_0.0;
            &&& with is Ok
            &&& with->Ok_0.sort == q.sort
            &&& with->Ok_0.limit == q.limit
            &&& with->Ok_0.offset == q.offset
            &&& with->Ok_0.count == q.count
            &&& matches_query(l, with->Ok_0) <==> matches_query(l, q) && is_met(
                key,
                raw,
                field_value(flat_view(l), field),
            )
        }),
{
    let c = parsed_condition(key, raw)->Ok_0;
    let r = with_param(q, key, raw)->Ok_0;
    assert(r.conditions == q.conditions.push(c));
    let flat = flat_view(l);
    if matches_query(l, r) {
        assert forall|i: int| 0 <= i < q.conditions.len() implies condition_holds(
            field_value(flat, (#[trigger] q.conditions[i]).0),
            q.conditions[i].1,
        ) by {
            assert(r.conditions[i] == q.conditions[i]);
        }
        assert(r.conditions[q.conditions.len() as int] == c);
    }
}

/// `clients.lt=2` and its like find the rooms with so many clients.
pub proof fn law_clients_parameter(q: QueryView, l: ListingView, m: u32)
    requires
        !l.extra.dom().contains("clients"@),
    ensures
        ({
            let raw = decimal(m as nat);
            let found = |key: Seq<char>| matches_query(l, with_param(q, key, raw)->Ok_0);
            let before = matches_query(l, q);
            &&& found("clients"@) <==> before && l.clients == m
            &&& found("clients"@ + ".eq"@) <==> before && l.clients == m
            &&& found("clients"@ + ".ne"@) <==> before && l.clients != m
            &&& found("clients"@ + ".gt"@) <==> before && l.clients > m
            &&& found("clients"@ + ".gte"@) <==> before && l.clients >= m
            &&& found("clients"@ + ".lt"@) <==> before && l.clients < m
            &&& found("clients"@ + ".lte"@) <==> before && l.clients <= m
        }),
{
    let raw = decimal(m as nat);
    let f = "clients"@;
    assert(raw == signed_decimal(m as int));
    lemma_plain_names();
    law_parameters_compare_numbers(f, l.clients as int, m as int);
    lemma_conditions(f, raw, Some(JsonView::Int(l.clients as int)));
    lemma_op_names();
    law_listing_shows_itself(l);
    law_listed_field(l, f);
    assert forall|op: Seq<char>| op.len() > 0 && op[0] == '.' implies (#[trigger] (f + op))
        != "name"@ && f + op != "sort"@ && f + op != "limit"@ && f + op != "offset"@ && f + op
        != "count"@ by {
        assert((f + op).contains('.')) by {
            assert((f + op)[f.len() as int] == '.');
        }
    }
    law_filters_narrow(q, f, raw, l);
    law_filters_narrow(q, f + ".eq"@, raw, l);
    law_filters_narrow(q, f + ".ne"@, raw, l);
    law_filters_narrow(q, f + ".gt"@, raw, l);
    law_filters_narrow(q, f + ".gte"@, raw, l);
    law_filters_narrow(q, f + ".lt"@, raw, l);
    law_filters_narrow(q, f + ".lte"@, raw, l);
}

proof fn lemma_plain_names()
    ensures
        !"name"@.contains('.'),
        !"sort"@.contains('.'),
        !"limit"@.contains('.'),
        !"offset"@.contains('.'),
        !"count"@.contains('.'),
        !"clients"@.contains('.'),
        !"locked"@.contains('.'),
        !"private"@.contains('.'),
        "clients"@.len() == 7,
        "name"@.len() == 4,
        "sort"@.len() == 4,
        "limit"@.len() == 5,
        "offset"@.len() == 6,
        "count"@.len() == 5,
        "name"@ != "sort"@,
        "limit"@ != "count"@,
{
    reveal_strlit("name");
    reveal_strlit("sort");
    reveal_strlit("limit");
    reveal_strlit("offset");
    reveal_strlit("count");
    reveal_strlit("clients");
    reveal_strlit("locked");
    reveal_strlit("private");
    assert("name"@[0] != "sort"@[0]);
    assert("limit"@[0] != "count"@[0]);
}

/// `name=..` finds the rooms of that type among those that were found.
pub proof fn law_name_parameter(q: QueryView, l: ListingView, name: Seq<char>)
    requires
        q.name is None,
        !l.extra.dom().contains("name"@),
    ensures
        with_param(q, "name"@, name) is Ok,
        matches_query(l, with_param(q, "name"@, name)->Ok_0) <==> matches_query(l, q) && l.name
            == name,
{
    law_listing_shows_itself(l);
    let r = with_param(q, "name"@, name)->Ok_0;
    assert(r.conditions == q.conditions);
}

/// `limit`, `offset` and `count` set what their names say, and leave what is looked
/// for as it is.
pub proof fn law_paging_parameters(q: QueryView, n: usize, l: ListingView)
    ensures
        ({
            let raw = decimal(n as nat);
            let limited = with_param(q, "limit"@, raw);
            let moved = with_param(q, "offset"@, raw);
            let counted = with_param(q, "count"@, "true"@);
            let listed = with_param(q, "count"@, "false"@);
            &&& limited is Ok && limited->Ok_0.limit == Some(n) && limited->Ok_0.offset == q.offset
            &&& moved is Ok && moved->Ok_0.offset == n && moved->Ok_0.limit == q.limit
            &&& counted is Ok && counted->Ok_0.count
            &&& listed is Ok && !listed->Ok_0.count
            &&& matches_query(l, limited->Ok_0) == matches_query(l, q)
            &&& matches_query(l, moved->Ok_0) == matches_query(l, q)
            &&& matches_query(l, counted->Ok_0) == matches_query(l, q)
        }),
{
    lemma_plain_names();
    lemma_decimal_value(n as nat);
    assert(unsigned_value(decimal(n as nat), usize::MAX as nat) == Some(n as nat));
    reveal_strlit("true");
    reveal_strlit("false");
    assert("true"@.len() != "false"@.len());
}

// ---------------------------------------------------------------------
// order and pages
// ---------------------------------------------------------------------

/// A sort key is a field, with `:asc` or `:desc` (or `:1` or `:-1`) behind it.
pub proof fn law_sort_keys_name_direction(field: Seq<char>)
    requires
        !field.contains(':'),
    ensures
        sort_key(field).0 == field && sort_key(field).1 > 0,
        sort_key(field + ":asc"@).0 == field && sort_key(field + ":asc"@).1 > 0,
        sort_key(field + ":desc"@).0 == field && sort_key(field + ":desc"@).1 < 0,
        sort_key(field + ":1"@).0 == field && sort_key(field + ":1"@).1 > 0,
        sort_key(field + ":-1"@).0 == field && sort_key(field + ":-1"@).1 < 0,
{
    reveal_strlit(":asc");
    reveal_strlit(":desc");
    reveal_strlit(":1");
    reveal_strlit(":-1");
    reveal_strlit("asc");
    reveal_strlit("desc");
    reveal_strlit("1");
    reveal_strlit("-1");
    if field.len() > 0 {
        assert forall|k: int| -1 < k < field.len() implies field[k] != ':' by {
            assert(field.contains(field[k]));
        }
        lemma_last_split(field, ':', -1);
    }
    let i = field.len() as int;
    let a = field + ":asc"@;
    let b = field + ":desc"@;
    let c = field + ":1"@;
    let d = field + ":-1"@;
    lemma_last_split(a, ':', i);
    lemma_last_split(b, ':', i);
    lemma_last_split(c, ':', i);
    lemma_last_split(d, ':', i);
    assert(a.take(i) =~= field && a.skip(i + 1) =~= "asc"@);
    assert(b.take(i) =~= field && b.skip(i + 1) =~= "desc"@);
    assert(c.take(i) =~= field && c.skip(i + 1) =~= "1"@);
    assert(d.take(i) =~= field && d.skip(i + 1) =~= "-1"@);
    assert("asc"@.len() == 3 && "desc"@.len() == 4 && "1"@.len() == 1 && "-1"@.len() == 2);
}

/// Under one key listings stand in the order of the whole numbers in its field, or in
/// the opposite order where the direction is negative; a further key counts where
/// these are equal.
pub proof fn law_keys_order_numbers(
    a: JsonView,
    b: JsonView,
    field: Seq<char>,
    direction: int,
    rest: Seq<(Seq<char>, int)>,
    x: int,
    y: int,
)
    requires
        field_value(a, field) == Some(JsonView::Int(x)),
        field_value(b, field) == Some(JsonView::Int(y)),
        is_exact(x),
        is_exact(y),
    ensures
        ({
            let keys = seq![(field, direction)] + rest;
            &&& direction >= 0 && x < y ==> listing_order(a, b, keys) == Order::Less
            &&& direction >= 0 && x > y ==> listing_order(a, b, keys) == Order::Greater
            &&& direction < 0 && x < y ==> listing_order(a, b, keys) == Order::Greater
            &&& direction < 0 && x > y ==> listing_order(a, b, keys) == Order::Less
            &&& x == y ==> listing_order(a, b, keys) == listing_order(a, b, rest)
        }),
{
    let keys = seq![(field, direction)] + rest;
    assert(keys.drop_first() =~= rest);
    law_numbers_in_order(JsonView::Int(x), JsonView::Int(y));
}

/// Rooms that are sorted by their clients come with fewer clients first, or with more
/// clients first where the direction is negative, and none is lost.
pub proof fn law_rooms_sorted_by_clients(
    ls: Seq<ListingView>,
    direction: int,
    out: Seq<ListingView>,
    i: int,
    j: int,
)
    requires
        forall|k: int|
            0 <= k < ls.len() ==> !(#[trigger] ls[k]).extra.dom().contains("clients"@),
        is_sorting(ls, seq![("clients"@, direction)], out),
        0 <= i < j < out.len(),
    ensures
        direction >= 0 ==> out[i].clients <= out[j].clients,
        direction < 0 ==> out[i].clients >= out[j].clients,
        out.len() == ls.len(),
{
    let keys = seq![("clients"@, direction)];
    let fl = flat_views(ls);
    lemma_plain_names();
    assert forall|k: int| 0 <= k < fl.len() implies field_value(#[trigger] fl[k], "clients"@)
        == Some(JsonView::Int(ls[k].clients as int)) by {
        law_listing_shows_itself(ls[k]);
        law_listed_field(ls[k], "clients"@);
    }
    assert(uniform(fl, keys)) by {
        assert forall|x: int, y: int, k: int|
            #![trigger fl[x], fl[y], keys[k]]
            0 <= x < fl.len() && 0 <= y < fl.len() && 0 <= k < keys.len() implies value_kind(
            key_value(fl[x], keys[k].0),
        ) == value_kind(key_value(fl[y], keys[k].0)) by {
            assert(field_value(fl[x], "clients"@) is Some);
            assert(field_value(fl[y], "clients"@) is Some);
        }
    }
    law_uniform_keys_consistent(fl, keys);
    let p = choose|p: Seq<int>| #[trigger]
        is_permutation(p, ls.len() as int) && out == p.map_values(|i: int| ls[i]) && (consistent(
            flat_views(ls),
            keys,
        ) ==> is_sorted_by(p, flat_views(ls), keys));
    assert(out[i] == ls[p[i]] && out[j] == ls[p[j]]);
    let a = fl[p[i]];
    let b = fl[p[j]];
    let x = ls[p[i]].clients as int;
    let y = ls[p[j]].clients as int;
    assert(field_value(a, "clients"@) == Some(JsonView::Int(x)));
    assert(field_value(b, "clients"@) == Some(JsonView::Int(y)));
    law_keys_order_numbers(a, b, "clients"@, direction, seq![], x, y);
    assert(keys + Seq::<(Seq<char>, int)>::empty() =~= keys);
}

/// A page holds the rooms from its offset on, as many as its limit says or as there
/// are, and tells how many match in all and where the next page starts.
pub proof fn law_page_is_a_slice(m: Seq<ListingView>, q: QueryView, r: RoomQueryResult, i: int)
    requires
        is_page(m, q, r),
        q.offset <= m.len(),
    ensures
        r.total == m.len(),
        q.count ==> r.items@.len() == 0,
        !q.count && 0 <= i < r.items@.len() ==> listing_views(r.items@)[i] == m[q.offset + i],
        !q.count ==> r.offset == q.offset && q.offset + r.items@.len() <= m.len(),
        !q.count ==> (q.limit matches Some(n) ==> r.items@.len() <= n),
        !q.count && (q.limit is None || r.items@.len() < q.limit->Some_0) ==> q.offset
            + r.items@.len() == m.len(),
        !q.count && q.offset + r.items@.len() == m.len() ==> r.next_offset is None,
        !q.count && q.offset + r.items@.len() < m.len() ==> r.next_offset is Some
            && r.next_offset->Some_0 == q.offset + r.items@.len(),
        r.limit == q.limit,
{
    assert(listing_views(r.items@).len() == r.items@.len());
}

}
