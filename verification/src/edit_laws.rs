//! What edits, pointers and filters mean.

use crate::filter::{filter_conditions, operator_condition, operator_conditions};
use crate::json::JsonView;
use crate::lifecycle::{is_deadline, is_earliest};
use crate::pointer::{escaped, pointer_text, pointer_tokens};
use crate::query::{condition_holds, equals_condition, values_equal, ConditionView};
use crate::query_laws::is_exact;
use crate::room::{is_pending, log_json, ContextView, LogView};
use crate::server_laws::member;
use crate::state::{edit_here, edit_result, segment_index, value_at, EditView};
use crate::text::{decimal, lemma_decimal_value, lemma_sorted_texts, sorted_texts};
use crate::value::law_numbers_in_order;
use vstd::prelude::*;

verus! {

// ---------------------------------------------------------------------
// edits of a state
// ---------------------------------------------------------------------

/// A segment of digits names a place of an array.
pub proof fn law_digits_name_places(n: nat)
    requires
        n <= usize::MAX,
    ensures
        segment_index(decimal(n)) == Some(n),
{
    lemma_decimal_value(n);
    assert(decimal(n)[0] != '+') by {
        lemma_first_digit(n);
    }
}

proof fn lemma_first_digit(n: nat)
    ensures
        decimal(n).len() > 0,
        '0' <= decimal(n)[0] <= '9',
    decreases n,
{
    if n >= 10 {
        lemma_first_digit(n / 10);
    }
}

/// There is something at a place exactly where the container there has it.
pub open spec fn takes_edit(container: JsonView, seg: Seq<char>, edit: EditView) -> bool {
    match container {
        JsonView::Object(m) => edit is Put || m.dom().contains(seg),
        JsonView::Array(s) => segment_index(seg) matches Some(i) && i < s.len(),
        _ => false,
    }
}

/// An edit is possible exactly where all but its last segment lead to an object, or to
/// an array that has the place; a key can only be removed where it is there.
pub proof fn law_where_edits_are_possible(root: JsonView, path: Seq<Seq<char>>, edit: EditView)
    requires
        path.len() > 0,
    ensures
        edit_result(root, path, edit) is Ok <==> (value_at(root, path.drop_last()) matches Some(c)
            && takes_edit(c, path.last(), edit)),
    decreases path.len(),
{
    if path.len() == 1 {
        assert(path.drop_last() =~= seq![]);
        assert(path.last() == path[0]);
    } else {
        let rest = path.drop_first();
        assert(rest.drop_last() =~= path.drop_last().drop_first());
        assert(rest.last() == path.last());
        assert(path.drop_last()[0] == path[0]);
        match root {
            JsonView::Object(m) => {
                if m.dom().contains(path[0]) {
                    law_where_edits_are_possible(m[path[0]], rest, edit);
                }
            },
            JsonView::Array(s) => {
                if let Some(i) = segment_index(path[0]) {
                    if i < s.len() {
                        law_where_edits_are_possible(s[i as int], rest, edit);
                    }
                }
            },
            _ => {},
        }
    }
}

/// The whole state can be replaced, and cannot be removed.
pub proof fn law_whole_state_is_replaced(root: JsonView, v: JsonView)
    ensures
        edit_result(root, seq![], EditView::Put(v)) == Ok::<JsonView, Seq<char>>(v),
        edit_result(root, seq![], EditView::Remove) is Err,
{
}

/// A key that is removed is gone, whatever path leads to its object, and the object
/// keeps its other keys.
pub proof fn law_removed_key_is_gone(
    root: JsonView,
    path: Seq<Seq<char>>,
    m: Map<Seq<char>, JsonView>,
    key: Seq<char>,
    other: Seq<char>,
)
    requires
        value_at(root, path) == Some(JsonView::Object(m)),
        m.dom().contains(key),
        other != key,
    ensures
        edit_result(root, path.push(key), EditView::Remove) matches Ok(after) && value_at(
            after,
            path.push(key),
        ) is None && (m.dom().contains(other) ==> value_at(after, path.push(other)) == Some(
            m[other],
        )),
    decreases path.len(),
{
    lemma_edit_inside(root, path, key, EditView::Remove, JsonView::Object(m));
    let after = edit_result(root, path.push(key), EditView::Remove)->Ok_0;
    lemma_value_behind(after, path, key);
    lemma_value_behind(after, path, other);
    let left = edit_here(JsonView::Object(m), key, EditView::Remove)->Ok_0;
    lemma_one_step(left, key);
    lemma_one_step(left, other);
}

/// An item that is removed is gone: those in front of it stay in their places, and those
/// behind it move up by one.
pub proof fn law_removed_item_closes_up(
    root: JsonView,
    path: Seq<Seq<char>>,
    s: Seq<JsonView>,
    n: nat,
    j: nat,
)
    requires
        value_at(root, path) == Some(JsonView::Array(s)),
        n < s.len() <= usize::MAX,
        j + 1 < s.len(),
    ensures
        edit_result(root, path.push(decimal(n)), EditView::Remove) matches Ok(after) && value_at(
            after,
            path.push(decimal(j)),
        ) == Some(
            if j < n {
                s[j as int]
            } else {
                s[j as int + 1]
            },
        ) && value_at(after, path.push(decimal((s.len() - 1) as nat))) is None,
{
    law_digits_name_places(n);
    law_digits_name_places(j);
    law_digits_name_places((s.len() - 1) as nat);
    lemma_edit_inside(root, path, decimal(n), EditView::Remove, JsonView::Array(s));
    let after = edit_result(root, path.push(decimal(n)), EditView::Remove)->Ok_0;
    lemma_value_behind(after, path, decimal(j));
    lemma_value_behind(after, path, decimal((s.len() - 1) as nat));
    let left = edit_here(JsonView::Array(s), decimal(n), EditView::Remove)->Ok_0;
    lemma_one_step(left, decimal(j));
    lemma_one_step(left, decimal((s.len() - 1) as nat));
}

/// What one segment leads to.
proof fn lemma_one_step(root: JsonView, seg: Seq<char>)
    ensures
        root matches JsonView::Object(m) ==> value_at(root, seq![seg]) == if m.dom().contains(seg) {
            Some(m[seg])
        } else {
            None
        },
        root matches JsonView::Array(s) ==> value_at(root, seq![seg]) == match segment_index(seg) {
            Some(i) => if i < s.len() {
                Some(s[i as int])
            } else {
                None
            },
            None => None,
        },
{
    reveal_with_fuel(value_at, 2);
    assert(seq![seg].drop_first() =~= seq![]);
}

/// What a path leads to that is one segment longer.
proof fn lemma_value_behind(root: JsonView, path: Seq<Seq<char>>, seg: Seq<char>)
    requires
        value_at(root, path) is Some,
    ensures
        value_at(root, path.push(seg)) == value_at(value_at(root, path)->Some_0, seq![seg]),
    decreases path.len(),
{
    if path.len() == 0 {
        assert(path.push(seg) =~= seq![seg]);
    } else {
        assert(path.push(seg).drop_first() =~= path.drop_first().push(seg));
        match root {
            JsonView::Object(m) => {
                lemma_value_behind(m[path[0]], path.drop_first(), seg);
            },
            JsonView::Array(s) => {
                let i = segment_index(path[0])->Some_0;
                lemma_value_behind(s[i as int], path.drop_first(), seg);
            },
            _ => {},
        }
    }
}

/// An edit at the end of a path changes the container that the path leads to.
proof fn lemma_edit_inside(
    root: JsonView,
    path: Seq<Seq<char>>,
    seg: Seq<char>,
    edit: EditView,
    container: JsonView,
)
    requires
        value_at(root, path) == Some(container),
        edit_here(container, seg, edit) is Ok,
    ensures
        edit_result(root, path.push(seg), edit) matches Ok(after) && value_at(after, path) == Some(
            edit_here(container, seg, edit)->Ok_0,
        ),
    decreases path.len(),
{
    if path.len() == 0 {
        assert(path.push(seg) =~= seq![seg]);
    } else {
        assert(path.push(seg).drop_first() =~= path.drop_first().push(seg));
        match root {
            JsonView::Object(m) => {
                lemma_edit_inside(m[path[0]], path.drop_first(), seg, edit, container);
            },
            JsonView::Array(s) => {
                let i = segment_index(path[0])->Some_0;
                lemma_edit_inside(s[i as int], path.drop_first(), seg, edit, container);
            },
            _ => {},
        }
    }
}

// ---------------------------------------------------------------------
// pointers
// ---------------------------------------------------------------------

/// In a pointer a tilde is written as `~0` and a slash as `~1`; every other character
/// stands for itself, whatever stands around it.
pub proof fn law_pointer_escapes(a: Seq<char>, c: char, b: Seq<char>)
    ensures
        c == '~' ==> escaped(a + seq![c] + b) == escaped(a) + seq!['~', '0'] + escaped(b),
        c == '/' ==> escaped(a + seq![c] + b) == escaped(a) + seq!['~', '1'] + escaped(b),
        c != '~' && c != '/' ==> escaped(a + seq![c] + b) == escaped(a) + seq![c] + escaped(b),
        escaped(seq![]) == Seq::<char>::empty(),
    decreases a.len(),
{
    let t = a + seq![c] + b;
    if a.len() == 0 {
        assert(t.drop_first() =~= b);
        assert(t[0] == c);
        assert(escaped(a) =~= seq![]);
    } else {
        let rest = a.drop_first();
        assert(t.drop_first() =~= rest + seq![c] + b);
        assert(t[0] == a[0]);
        law_pointer_escapes(rest, c, b);
    }
}

/// A pointer names its tokens one after the other, each behind a slash.
pub proof fn law_pointer_is_tokens_behind_slashes(path: Seq<char>, at: Seq<Seq<char>>, t: Seq<char>)
    ensures
        pointer_text(path, at.push(t)) == pointer_text(path, at) + seq!['/'] + escaped(t),
        pointer_text(path, seq![]) == path,
    decreases at.len(),
{
    if at.len() == 0 {
        reveal_with_fuel(pointer_text, 2);
        assert(at.push(t).drop_first() =~= seq![]);
    } else {
        assert(at.push(t).drop_first() =~= at.drop_first().push(t));
        law_pointer_is_tokens_behind_slashes(
            path + seq!['/'] + escaped(at[0]),
            at.drop_first(),
            t,
        );
    }
}

/// The empty pointer names the whole document, and a pointer that is not empty starts
/// with a slash.
pub proof fn law_where_pointers_start(p: Seq<char>)
    requires
        p.len() > 0,
        p[0] != '/',
    ensures
        pointer_tokens(p) is None,
        pointer_tokens(seq![]) == Some(Seq::<Seq<char>>::empty()),
{
}

// ---------------------------------------------------------------------
// filters
// ---------------------------------------------------------------------

/// A filter with one operator on one field.
pub open spec fn one_filter(field: Seq<char>, op: Seq<char>, operand: JsonView) -> JsonView {
    JsonView::Object(
        Map::<Seq<char>, JsonView>::empty().insert(
            field,
            JsonView::Object(Map::<Seq<char>, JsonView>::empty().insert(op, operand)),
        ),
    )
}

/// A filter asks one thing about one field, and it is met.
pub open spec fn filter_met(filter: JsonView, field: Seq<char>, actual: Option<JsonView>) -> bool {
    filter_conditions(filter) matches Ok(cs) && cs.len() == 1 && cs[0].0 == field
        && condition_holds(actual, cs[0].1)
}

proof fn lemma_one_sorted(t: Seq<char>)
    ensures
        sorted_texts(set![t]) == seq![t],
{
    lemma_sorted_texts(seq![t]);
    assert(seq![t].to_set() =~= set![t]) by {
        assert(seq![t][0] == t);
    }
}

proof fn lemma_one_filter(field: Seq<char>, op: Seq<char>, operand: JsonView)
    ensures
        operator_condition(op, operand) matches Ok(c) ==> filter_conditions(
            one_filter(field, op, operand),
        ) == Ok::<Seq<(Seq<char>, ConditionView)>, Seq<char>>(seq![(field, c)]),
        operator_condition(op, operand) is Err ==> filter_conditions(
            one_filter(field, op, operand),
        ) is Err,
{
    let inner = Map::<Seq<char>, JsonView>::empty().insert(op, operand);
    let outer = Map::<Seq<char>, JsonView>::empty().insert(field, JsonView::Object(inner));
    assert(inner.dom() =~= set![op]);
    assert(outer.dom() =~= set![field]);
    lemma_one_sorted(op);
    lemma_one_sorted(field);
    reveal_with_fuel(crate::filter::fields_filter, 2);
    reveal_with_fuel(operator_conditions, 2);
    assert(seq![op].drop_last() =~= seq![]);
    assert(seq![field].drop_last() =~= seq![]);
    assert(seq![op].last() == op);
    assert(seq![field].last() == field);
    if let Ok(c) = operator_condition(op, operand) {
        let none = Seq::<(Seq<char>, ConditionView)>::empty();
        assert(none + none.push((field, c)) =~= seq![(field, c)]);
    }
}

/// The operators of a filter compare whole numbers as what they are named after.
pub proof fn law_filters_compare_numbers(field: Seq<char>, n: int, m: int)
    requires
        is_exact(n),
        is_exact(m),
    ensures
        ({
            let actual = Some(JsonView::Int(n));
            let v = JsonView::Int(m);
            &&& filter_met(one_filter(field, "eq"@, v), field, actual) <==> n == m
            &&& filter_met(one_filter(field, "ne"@, v), field, actual) <==> n != m
            &&& filter_met(one_filter(field, "gt"@, v), field, actual) <==> n > m
            &&& filter_met(one_filter(field, "gte"@, v), field, actual) <==> n >= m
            &&& filter_met(one_filter(field, "lt"@, v), field, actual) <==> n < m
            &&& filter_met(one_filter(field, "lte"@, v), field, actual) <==> n <= m
        }),
{
    reveal_strlit("eq");
    reveal_strlit("ne");
    reveal_strlit("gt");
    reveal_strlit("gte");
    reveal_strlit("lt");
    reveal_strlit("lte");
    reveal_strlit("in");
    reveal_strlit("exists");
    assert("eq"@.len() == 2);
    assert("ne"@.len() == 2);
    assert("gt"@.len() == 2);
    assert("gte"@.len() == 3);
    assert("lt"@.len() == 2);
    assert("lte"@.len() == 3);
    assert("in"@.len() == 2);
    assert("exists"@.len() == 6);
    assert("eq"@[0] != "ne"@[0]);
    assert("eq"@[0] != "gt"@[0]);
    assert("eq"@[0] != "lt"@[0]);
    assert("eq"@[0] != "in"@[0]);
    assert("ne"@[0] != "gt"@[0]);
    assert("ne"@[0] != "lt"@[0]);
    assert("ne"@[0] != "in"@[0]);
    assert("gt"@[0] != "lt"@[0]);
    assert("gt"@[0] != "in"@[0]);
    assert("gte"@[0] != "lte"@[0]);
    assert("lt"@[0] != "in"@[0]);
    lemma_one_filter(field, "eq"@, JsonView::Int(m));
    lemma_one_filter(field, "ne"@, JsonView::Int(m));
    lemma_one_filter(field, "gt"@, JsonView::Int(m));
    lemma_one_filter(field, "gte"@, JsonView::Int(m));
    lemma_one_filter(field, "lt"@, JsonView::Int(m));
    lemma_one_filter(field, "lte"@, JsonView::Int(m));
    law_numbers_in_order(JsonView::Int(n), JsonView::Int(m));
}

/// `in` asks for one of several values, and `exists` for the presence or the absence of
/// a field; an unknown operator is refused, and so is an operand of the wrong kind.
pub proof fn law_filters_ask_for_some_and_any(
    field: Seq<char>,
    values: Seq<JsonView>,
    actual: Option<JsonView>,
    op: Seq<char>,
    v: JsonView,
)
    ensures
        filter_met(one_filter(field, "in"@, JsonView::Array(values)), field, actual) <==> (actual
            matches Some(a) && exists|i: int|
            0 <= i < values.len() && values_equal(a, #[trigger] values[i])),
        filter_met(one_filter(field, "exists"@, JsonView::Bool(true)), field, actual) <==> actual
            is Some,
        filter_met(one_filter(field, "exists"@, JsonView::Bool(false)), field, actual) <==> actual
            is None,
        !(v is Array) ==> filter_conditions(one_filter(field, "in"@, v)) is Err,
        !(v is Bool) ==> filter_conditions(one_filter(field, "exists"@, v)) is Err,
        op != "eq"@ && op != "ne"@ && op != "gt"@ && op != "gte"@ && op != "lt"@ && op != "lte"@
            && op != "in"@ && op != "exists"@ ==> filter_conditions(one_filter(field, op, v)) is Err,
{
    reveal_strlit("eq");
    reveal_strlit("ne");
    reveal_strlit("gt");
    reveal_strlit("gte");
    reveal_strlit("lt");
    reveal_strlit("lte");
    reveal_strlit("in");
    reveal_strlit("exists");
    assert("eq"@.len() == 2);
    assert("ne"@.len() == 2);
    assert("gt"@.len() == 2);
    assert("gte"@.len() == 3);
    assert("lt"@.len() == 2);
    assert("lte"@.len() == 3);
    assert("in"@.len() == 2);
    assert("exists"@.len() == 6);
    assert("eq"@[0] != "ne"@[0]);
    assert("eq"@[0] != "gt"@[0]);
    assert("eq"@[0] != "lt"@[0]);
    assert("eq"@[0] != "in"@[0]);
    assert("ne"@[0] != "gt"@[0]);
    assert("ne"@[0] != "lt"@[0]);
    assert("ne"@[0] != "in"@[0]);
    assert("gt"@[0] != "lt"@[0]);
    assert("gt"@[0] != "in"@[0]);
    assert("gte"@[0] != "lte"@[0]);
    assert("lt"@[0] != "in"@[0]);
    lemma_one_filter(field, "in"@, JsonView::Array(values));
    lemma_one_filter(field, "in"@, v);
    lemma_one_filter(field, "exists"@, JsonView::Bool(true));
    lemma_one_filter(field, "exists"@, JsonView::Bool(false));
    lemma_one_filter(field, "exists"@, v);
    lemma_one_filter(field, op, v);
}

/// A plain value asks for equality, and what is no object is no filter.
pub proof fn law_plain_filters_ask_for_equality(
    field: Seq<char>,
    v: JsonView,
    actual: Option<JsonView>,
)
    requires
        !(v is Object),
    ensures
        filter_met(
            JsonView::Object(Map::<Seq<char>, JsonView>::empty().insert(field, v)),
            field,
            actual,
        ) <==> (actual matches Some(a) && values_equal(a, v)),
        filter_conditions(v) is Err,
{
    let outer = Map::<Seq<char>, JsonView>::empty().insert(field, v);
    assert(outer.dom() =~= set![field]);
    lemma_one_sorted(field);
    reveal_with_fuel(crate::filter::fields_filter, 2);
    assert(seq![field].drop_last() =~= seq![]);
    assert(seq![field].last() == field);
    let none = Seq::<(Seq<char>, ConditionView)>::empty();
    assert(none + seq![(field, equals_condition(v))] =~= seq![(field, equals_condition(v))]);
}

// ---------------------------------------------------------------------
// what a room waits for
// ---------------------------------------------------------------------

/// Of several times the earliest is one of them, and none of them comes before it.
pub proof fn law_earliest_comes_first(d: Option<u64>, p: spec_fn(u64) -> bool, t: u64)
    requires
        is_earliest(d, p),
        p(t),
    ensures
        d is Some,
        d->Some_0 <= t,
        p(d->Some_0),
{
}

/// A room waits for the time of each of its timers, for the time at which a seat that
/// nobody took or a token is given up, and for the time at which it waited long enough
/// for a first client; and for nothing else.
pub proof fn law_room_waits_for(c: ContextView, created_at: u64, i: int, t: u64)
    requires
        created_at + c.seat_timeout <= u64::MAX,
    ensures
        0 <= i < c.timers.len() ==> is_deadline(c, created_at, c.timers[i].at),
        0 <= i < c.seats.len() && !c.seats[i].1.consumed && !c.seats[i].1.waiting_reconnection
            ==> is_deadline(c, created_at, c.seats[i].1.expires_at),
        0 <= i < c.reconnections.len() && c.reconnections[i].1.expires_at == Some(t)
            ==> is_deadline(c, created_at, t),
        c.auto_dispose && !c.had_clients && c.clients.len() == 0 && !c.disposing ==> is_deadline(
            c,
            created_at,
            (created_at + c.seat_timeout) as u64,
        ),
        c.timers.len() == 0 && c.seats.len() == 0 && c.reconnections.len() == 0 && (c.had_clients
            || c.clients.len() > 0 || !c.auto_dispose) ==> !is_deadline(c, created_at, t),
        is_deadline(c, created_at, t) && c.had_clients ==> (exists|k: int|
            0 <= k < c.timers.len() && (#[trigger] c.timers[k]).at == t) || (exists|k: int|
            0 <= k < c.seats.len() && (#[trigger] c.seats[k]).1.expires_at == t
                && !c.seats[k].1.consumed && !c.seats[k].1.waiting_reconnection) || (exists|k: int|
            0 <= k < c.reconnections.len() && (#[trigger] c.reconnections[k]).1.expires_at == Some(
                t,
            )),
{
    if 0 <= i < c.seats.len() && !c.seats[i].1.consumed && !c.seats[i].1.waiting_reconnection {
        assert(is_pending(c.seats[i].1));
    }
}

/// What is told of a message that passed: when, which way, of what kind, of whom, of
/// what type, with what, and how long it was.
pub proof fn law_log_is_shown(e: LogView)
    ensures
        ({
            let v = log_json(e);
            &&& member(v, "at"@) == Some(JsonView::Int(e.at as int))
            &&& member(v, "direction"@) == Some(JsonView::Str(e.direction))
            &&& member(v, "kind"@) == Some(JsonView::Str(e.kind))
            &&& e.client matches Some(c) ==> member(v, "client"@) == Some(JsonView::Str(c))
            &&& e.client is None ==> member(v, "client"@) == Some(JsonView::Null)
            &&& e.msg_type matches Some(t) ==> member(v, "msgType"@) == Some(JsonView::Str(t))
            &&& e.msg_type is None ==> member(v, "msgType"@) == Some(JsonView::Null)
            &&& e.payload matches Some(p) ==> member(v, "payload"@) == Some(p)
            &&& e.payload is None ==> member(v, "payload"@) == Some(JsonView::Null)
            &&& member(v, "bytes"@) == Some(JsonView::Int(e.bytes as int))
        }),
{
    reveal_strlit("at");
    reveal_strlit("direction");
    reveal_strlit("kind");
    reveal_strlit("client");
    reveal_strlit("msgType");
    reveal_strlit("payload");
    reveal_strlit("bytes");
    assert("at"@.len() == 2);
    assert("direction"@.len() == 9);
    assert("kind"@.len() == 4);
    assert("client"@.len() == 6);
    assert("msgType"@.len() == 7);
    assert("payload"@.len() == 7);
    assert("bytes"@.len() == 5);
    assert("msgType"@[0] != "payload"@[0]);
}

}
