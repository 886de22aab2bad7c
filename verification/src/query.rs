//! Room queries: filters with comparison operators, sort keys and pages, and
//! how they are read from the parameters of a request.

use crate::json::{
    clone_values, finite_bits, json_view, lookup, same, values_view, Double, Json, JsonView,
};
use crate::text::{
    bool_value, is_less, join_quoted, last_split, parse_bool, parse_signed, parse_unsigned, pieces,
    same_text, signed_value, split_last, split_text, text_less, text_views, trim_text, trimmed,
    unsigned_value, with_quoted,
};
use crate::value::{
    double_text, int_order, is_number, json_text, number_key, number_order, read_double, Order,
};
use vstd::prelude::*;

verus! {

/// Sort options: `(field, direction)` pairs. A negative direction is descending.
/// Fields support dot notation (`metadata.region`).
pub type SortOptions = Vec<(String, i32)>;

/// Filter conditions of the exact-equality form: field paths and expected values.
pub type Conditions = Vec<(String, Json)>;

/// Comparison operators for a single condition.
#[derive(Debug)]
pub enum Op {
    /// Field equals the expected value (numeric-aware; string/number coercion).
    Eq,
    /// Field does not equal the expected value.
    Ne,
    /// Field > expected (numbers, strings, booleans).
    Gt,
    /// Field >= expected.
    Gte,
    /// Field < expected.
    Lt,
    /// Field <= expected.
    Lte,
    /// Field is one of the listed values.
    In(Vec<Json>),
    /// Field is present.
    Exists,
    /// Field is absent.
    NotExists,
}

/// What an operator stands for.
pub enum OpView {
    Eq,
    Ne,
    Gt,
    Gte,
    Lt,
    Lte,
    In(Seq<JsonView>),
    Exists,
    NotExists,
}

impl View for Op {
    type V = OpView;

    open spec fn view(&self) -> OpView {
        match self {
            Op::Eq => OpView::Eq,
            Op::Ne => OpView::Ne,
            Op::Gt => OpView::Gt,
            Op::Gte => OpView::Gte,
            Op::Lt => OpView::Lt,
            Op::Lte => OpView::Lte,
            Op::In(vs) => OpView::In(values_view(vs@)),
            Op::Exists => OpView::Exists,
            Op::NotExists => OpView::NotExists,
        }
    }
}

impl Clone for Op {
    fn clone(&self) -> (r: Self)
        ensures
            r@ == self@,
    {
        match self {
            Op::Eq => Op::Eq,
            Op::Ne => Op::Ne,
            Op::Gt => Op::Gt,
            Op::Gte => Op::Gte,
            Op::Lt => Op::Lt,
            Op::Lte => Op::Lte,
            Op::In(vs) => Op::In(clone_values(vs)),
            Op::Exists => Op::Exists,
            Op::NotExists => Op::NotExists,
        }
    }
}

/// A single filter: an operator and, for those that compare, the expected value.
#[derive(Debug)]
pub struct Condition {
    pub op: Op,
    pub value: Option<Json>,
}

/// What a condition stands for.
pub struct ConditionView {
    pub op: OpView,
    pub value: Option<JsonView>,
}

/// An optional value, read through its view.
pub open spec fn option_view(v: Option<Json>) -> Option<JsonView> {
    match v {
        Some(j) => Some(j@),
        None => None,
    }
}

impl View for Condition {
    type V = ConditionView;

    open spec fn view(&self) -> ConditionView {
        ConditionView { op: self.op@, value: option_view(self.value) }
    }
}

/// A copy of an optional value.
pub fn clone_option(v: &Option<Json>) -> (r: Option<Json>)
    ensures
        option_view(r) == option_view(*v),
{
    match v {
        Some(j) => Some(j.clone()),
        None => None,
    }
}

impl Clone for Condition {
    fn clone(&self) -> (r: Self)
        ensures
            r@ == self@,
    {
        Condition { op: self.op.clone(), value: clone_option(&self.value) }
    }
}

impl Condition {
    /// The condition that a field equals `value`.
    pub fn eq(value: Json) -> (r: Self)
        ensures
            r@ == equals_condition(value@),
    {
        Condition { op: Op::Eq, value: Some(value) }
    }
}

pub open spec fn equals_condition(v: JsonView) -> ConditionView {
    ConditionView { op: OpView::Eq, value: Some(v) }
}

// ---------------------------------------------------------------------
// matching
// ---------------------------------------------------------------------

/// Equality in queries: equal values, numbers that are equal as doubles, and a
/// text that spells a number.
pub open spec fn values_equal(a: JsonView, b: JsonView) -> bool {
    ||| same(a, b)
    ||| is_number(a) && is_number(b) && number_key(a) == number_key(b)
    ||| a is Str && is_number(b) && a->Str_0 == json_text(b)
    ||| is_number(a) && b is Str && json_text(a) == b->Str_0
}

/// How two texts stand to each other.
pub open spec fn text_order(a: Seq<char>, b: Seq<char>) -> Order {
    if text_less(a, b) {
        Order::Less
    } else if a == b {
        Order::Equal
    } else {
        Order::Greater
    }
}

/// The order of values: numbers among numbers, as doubles; texts among texts;
/// `false` before `true`. Other pairs have none.
pub open spec fn value_order(a: JsonView, b: JsonView) -> Option<Order> {
    if is_number(a) && is_number(b) {
        Some(int_order(number_key(a), number_key(b)))
    } else {
        match (a, b) {
            (JsonView::Str(x), JsonView::Str(y)) => Some(text_order(x, y)),
            (JsonView::Bool(x), JsonView::Bool(y)) => Some(
                if x == y {
                    Order::Equal
                } else if y {
                    Order::Less
                } else {
                    Order::Greater
                },
            ),
            _ => None,
        }
    }
}

/// `a` equals one of the values.
pub open spec fn equals_one(a: JsonView, vs: Seq<JsonView>) -> bool {
    exists|i: int| 0 <= i < vs.len() && values_equal(a, #[trigger] vs[i])
}

/// Whether a field, if it is there, satisfies a condition.
pub open spec fn condition_holds(actual: Option<JsonView>, c: ConditionView) -> bool {
    let expected = match c.value {
        Some(v) => v,
        None => JsonView::Null,
    };
    let order = match (actual, c.value) {
        (Some(a), Some(v)) => value_order(a, v),
        _ => None,
    };
    match c.op {
        OpView::Eq => actual matches Some(a) && values_equal(a, expected),
        OpView::Ne => !(actual matches Some(a) && values_equal(a, expected)),
        OpView::Gt => order == Some(Order::Greater),
        OpView::Gte => order == Some(Order::Greater) || order == Some(Order::Equal),
        OpView::Lt => order == Some(Order::Less),
        OpView::Lte => order == Some(Order::Less) || order == Some(Order::Equal),
        OpView::In(vs) => actual matches Some(a) && equals_one(a, vs),
        OpView::Exists => actual is Some,
        OpView::NotExists => actual is None,
    }
}

/// The value that nested keys lead to.
pub open spec fn value_under(root: JsonView, keys: Seq<Seq<char>>) -> Option<JsonView>
    decreases keys.len(),
{
    if keys.len() == 0 {
        Some(root)
    } else {
        match root {
            JsonView::Object(m) => if m.dom().contains(keys[0]) {
                value_under(m[keys[0]], keys.drop_first())
            } else {
                None
            },
            _ => None,
        }
    }
}

/// The value at a path in dot notation.
pub open spec fn field_value(root: JsonView, path: Seq<char>) -> Option<JsonView> {
    value_under(root, pieces(path, '.'))
}

/// An optional reference to a value, read through its view.
pub open spec fn ref_view(v: Option<&Json>) -> Option<JsonView> {
    match v {
        Some(j) => Some(j@),
        None => None,
    }
}

/// Resolves a dot-notation path against a value.
pub fn resolve_path<'a>(root: &'a Json, path: &str) -> (r: Option<&'a Json>)
    ensures
        ref_view(r) == field_value(root@, path@),
{
    let parts: Vec<String> = split_text(path, '.');
    let ghost keys = text_views(parts@);
    let mut cur: &'a Json = root;
    let mut i: usize = 0;
    proof {
        assert(keys.skip(0) =~= keys);
    }
    while i < parts.len()
        invariant
            i <= parts.len(),
            keys == text_views(parts@),
            value_under(cur@, keys.skip(i as int)) == field_value(root@, path@),
        decreases parts.len() - i,
    {
        proof {
            assert(keys.skip(i as int).drop_first() =~= keys.skip(i + 1));
        }
        match cur {
            Json::Object(entries) => {
                match lookup(entries, parts[i].as_str()) {
                    Some(v) => {
                        cur = v;
                    },
                    None => {
                        return None;
                    },
                }
            },
            _ => {
                return None;
            },
        }
        i = i + 1;
    }
    proof {
        assert(keys.skip(i as int) =~= seq![]);
    }
    Some(cur)
}

fn holds_number(j: &Json) -> (r: bool)
    ensures
        r == is_number(j@),
{
    match j {
        Json::Uint(_) => true,
        Json::Int(_) => true,
        Json::Float(_) => true,
        _ => false,
    }
}

/// Numeric-aware equality with string/number coercion (so `slug=123` matches the
/// string field `"123"`, and `1` matches `1.0`).
pub fn value_eq(a: &Json, b: &Json) -> (r: bool)
    ensures
        r == values_equal(a@, b@),
{
    if a.same_as(b) {
        return true;
    }
    let na: bool = holds_number(a);
    let nb: bool = holds_number(b);
    if na && nb {
        return number_order(a, b) == Order::Equal;
    }
    match (a, b) {
        (Json::Str(x), _) => nb && same_text(x.as_str(), b.text().as_str()),
        (_, Json::Str(y)) => na && same_text(a.text().as_str(), y.as_str()),
        _ => false,
    }
}

/// How two values stand to each other; `None` when they cannot be compared.
pub fn compare_values(a: &Json, b: &Json) -> (r: Option<Order>)
    ensures
        r == value_order(a@, b@),
{
    if holds_number(a) && holds_number(b) {
        return Some(number_order(a, b));
    }
    match (a, b) {
        (Json::Str(x), Json::Str(y)) => if is_less(x.as_str(), y.as_str()) {
            Some(Order::Less)
        } else if same_text(x.as_str(), y.as_str()) {
            Some(Order::Equal)
        } else {
            Some(Order::Greater)
        },
        (Json::Bool(x), Json::Bool(y)) => if *x == *y {
            Some(Order::Equal)
        } else if *y {
            Some(Order::Less)
        } else {
            Some(Order::Greater)
        },
        _ => None,
    }
}

/// Does `actual` satisfy `condition`?
pub fn matches_condition(actual: Option<&Json>, condition: &Condition) -> (r: bool)
    ensures
        r == condition_holds(ref_view(actual), condition@),
{
    let order: Option<Order> = match (actual, &condition.value) {
        (Some(a), Some(v)) => compare_values(a, v),
        _ => None,
    };
    match &condition.op {
        Op::Eq => equals_expected(actual, &condition.value),
        Op::Ne => !equals_expected(actual, &condition.value),
        Op::Gt => match order {
            Some(o) => o == Order::Greater,
            None => false,
        },
        Op::Gte => match order {
            Some(o) => o != Order::Less,
            None => false,
        },
        Op::Lt => match order {
            Some(o) => o == Order::Less,
            None => false,
        },
        Op::Lte => match order {
            Some(o) => o != Order::Greater,
            None => false,
        },
        Op::In(values) => match actual {
            Some(a) => equals_any(a, values),
            None => false,
        },
        Op::Exists => actual.is_some(),
        Op::NotExists => actual.is_none(),
    }
}

fn equals_any(a: &Json, values: &Vec<Json>) -> (r: bool)
    ensures
        r == equals_one(a@, values_view(values@)),
{
    let ghost vs = values_view(values@);
    let mut i: usize = 0;
    while i < values.len()
        invariant
            i <= values.len(),
            vs == values_view(values@),
            forall|k: int| 0 <= k < i ==> !values_equal(a@, #[trigger] vs[k]),
        decreases values.len() - i,
    {
        if value_eq(a, &values[i]) {
            proof {
                assert(values_equal(a@, vs[i as int]));
            }
            return true;
        }
        i = i + 1;
    }
    false
}

fn equals_expected(actual: Option<&Json>, value: &Option<Json>) -> (r: bool)
    ensures
        r == (ref_view(actual) matches Some(a) && values_equal(
            a,
            match option_view(*value) {
                Some(v) => v,
                None => JsonView::Null,
            },
        )),
{
    match (actual, value) {
        (Some(a), Some(v)) => value_eq(a, v),
        (Some(a), None) => value_eq(a, &Json::Null),
        _ => false,
    }
}

/// `ne` is the opposite of `eq`, and `notExists` that of `exists`, on every
/// field.
pub proof fn law_opposite_operators(actual: Option<JsonView>, value: Option<JsonView>)
    ensures
        condition_holds(actual, ConditionView { op: OpView::Ne, value }) <==> !condition_holds(
            actual,
            ConditionView { op: OpView::Eq, value },
        ),
        condition_holds(actual, ConditionView { op: OpView::NotExists, value })
            <==> !condition_holds(actual, ConditionView { op: OpView::Exists, value }),
{
}

/// Where a field and the expected value can be compared, exactly one of less,
/// equal in order, and greater holds, and the inclusive operators are the
/// opposites of the strict ones.
pub proof fn law_comparison_operators(a: JsonView, v: JsonView)
    requires
        value_order(a, v) is Some,
    ensures
        ({
            let value = Some(v);
            let gt = condition_holds(Some(a), ConditionView { op: OpView::Gt, value });
            let lt = condition_holds(Some(a), ConditionView { op: OpView::Lt, value });
            let gte = condition_holds(Some(a), ConditionView { op: OpView::Gte, value });
            let lte = condition_holds(Some(a), ConditionView { op: OpView::Lte, value });
            !(gt && lt) && gte == !lt && lte == !gt
        }),
{
}

// ---------------------------------------------------------------------
// reading queries
// ---------------------------------------------------------------------

/// A query value read as a number, a truth value, null or a text.
pub open spec fn parsed_value(raw: Seq<char>) -> JsonView {
    match signed_value(raw) {
        Some(n) => JsonView::Int(n),
        None => match double_text(raw) {
            Some(Some(bits)) => JsonView::Float(bits),
            Some(None) => JsonView::Null,
            None => if raw == "true"@ {
                JsonView::Bool(true)
            } else if raw == "false"@ {
                JsonView::Bool(false)
            } else if raw == "null"@ {
                JsonView::Null
            } else {
                JsonView::Str(raw)
            },
        },
    }
}

/// Parses a raw query value as number / boolean / null / string.
pub fn parse_value(raw: &str) -> (r: Json)
    ensures
        r@ == parsed_value(raw@),
{
    match parse_signed(raw) {
        Some(n) => Json::Int(n),
        None => interpret_value(raw, read_double(raw)),
    }
}

/// What a raw query value that is no whole number stands for, given what it was
/// read as when it was taken for a double.
pub fn interpret_value(raw: &str, double: Option<Option<u64>>) -> (r: Json)
    ensures
        double matches Some(Some(bits)) ==> (if finite_bits(bits) {
            r@ == JsonView::Float(bits)
        } else {
            r@ == JsonView::Null
        }),
        double == Some(None::<u64>) ==> r@ == JsonView::Null,
        double is None ==> r@ == (if raw@ == "true"@ {
            JsonView::Bool(true)
        } else if raw@ == "false"@ {
            JsonView::Bool(false)
        } else if raw@ == "null"@ {
            JsonView::Null
        } else {
            JsonView::Str(raw@)
        }),
{
    match double {
        Some(Some(bits)) => match Double::from_bits(bits) {
            Some(d) => Json::Float(d),
            None => Json::Null,
        },
        Some(None) => Json::Null,
        None => if same_text(raw, "true") {
            Json::Bool(true)
        } else if same_text(raw, "false") {
            Json::Bool(false)
        } else if same_text(raw, "null") {
            Json::Null
        } else {
            Json::Str(raw.to_owned())
        },
    }
}

/// One sort key: `field`, `field:asc`, `field:desc`, `field:1` or `field:-1`.
pub open spec fn sort_key(part: Seq<char>) -> (Seq<char>, int) {
    match last_split(part, ':') {
        Some((f, d)) => if d == "asc"@ || d == "1"@ {
            (f, 1)
        } else if d == "desc"@ || d == "-1"@ {
            (f, -1)
        } else {
            (part, 1)
        },
        None => (part, 1),
    }
}

/// The sort keys that parts stand for: blank parts are passed over, and the
/// first one without a field is an error.
pub open spec fn sort_keys(parts: Seq<Seq<char>>) -> Result<Seq<(Seq<char>, int)>, Seq<char>>
    decreases parts.len(),
{
    if parts.len() == 0 {
        Ok(seq![])
    } else {
        match sort_keys(parts.drop_last()) {
            Err(e) => Err(e),
            Ok(ks) => {
                let part = trimmed(parts.last());
                if part.len() == 0 {
                    Ok(ks)
                } else if sort_key(part).0.len() == 0 {
                    Err(with_quoted("invalid sort key "@, part))
                } else {
                    Ok(ks.push(sort_key(part)))
                }
            },
        }
    }
}

/// Sort options, read through their views.
pub open spec fn sort_view(s: Seq<(String, i32)>) -> Seq<(Seq<char>, int)> {
    s.map_values(|k: (String, i32)| (k.0@, k.1 as int))
}

/// Parses the sort keys of a request, which commas separate.
pub fn parse_sort(raw: &str) -> (r: Result<SortOptions, String>)
    ensures
        r matches Ok(s) ==> sort_keys(pieces(raw@, ',')) == Ok::<Seq<(Seq<char>, int)>, Seq<char>>(
            sort_view(s@),
        ),
        r matches Err(e) ==> sort_keys(pieces(raw@, ',')) == Err::<
            Seq<(Seq<char>, int)>,
            Seq<char>,
        >(e@),
{
    let parts: Vec<String> = split_text(raw, ',');
    let ghost all = text_views(parts@);
    let mut sort: Vec<(String, i32)> = Vec::new();
    let mut i: usize = 0;
    proof {
        assert(sort_view(sort@) =~= seq![]);
        assert(all.take(0) =~= seq![]);
    }
    while i < parts.len()
        invariant
            i <= parts.len(),
            all == text_views(parts@),
            all == pieces(raw@, ','),
            sort_keys(all.take(i as int)) == Ok::<Seq<(Seq<char>, int)>, Seq<char>>(
                sort_view(sort@),
            ),
        decreases parts.len() - i,
    {
        proof {
            assert(all.take(i + 1).drop_last() =~= all.take(i as int));
            assert(all.take(i + 1).last() == parts@[i as int]@);
        }
        let part: String = trim_text(parts[i].as_str());
        let blank: bool = is_blank(part.as_str());
        if !blank {
            let key: (String, i32) = read_sort_key(part.as_str());
            if is_blank(key.0.as_str()) {
                proof {
                    lemma_sort_error(all, i + 1);
                }
                return Err(join_quoted("invalid sort key ", part.as_str()));
            }
            proof {
                assert(sort_view(sort@.push(key)) =~= sort_view(sort@).push((key.0@, key.1 as int)));
            }
            sort.push(key);
        }
        i = i + 1;
    }
    proof {
        assert(all.take(all.len() as int) =~= all);
    }
    Ok(sort)
}

/// An error among the first parts is the error of all of them.
proof fn lemma_sort_error(parts: Seq<Seq<char>>, n: int)
    requires
        0 <= n <= parts.len(),
        sort_keys(parts.take(n)) is Err,
    ensures
        sort_keys(parts) == sort_keys(parts.take(n)),
    decreases parts.len(),
{
    if n == parts.len() {
        assert(parts.take(n) =~= parts);
    } else {
        assert(parts.drop_last().take(n) =~= parts.take(n));
        lemma_sort_error(parts.drop_last(), n);
    }
}

/// Whether a text has no character.
pub fn is_blank(t: &str) -> (r: bool)
    ensures
        r == (t@.len() == 0),
{
    let r: bool = same_text(t, "");
    proof {
        reveal_strlit("");
        if t@.len() == 0 {
            assert(t@ =~= ""@);
        }
    }
    r
}

fn read_sort_key(part: &str) -> (r: (String, i32))
    ensures
        (r.0@, r.1 as int) == sort_key(part@),
{
    match split_last(part, ':') {
        Some((field, dir)) => {
            let d: &str = dir.as_str();
            if same_text(d, "asc") || same_text(d, "1") {
                (field, 1)
            } else if same_text(d, "desc") || same_text(d, "-1") {
                (field, -1)
            } else {
                (part.to_owned(), 1)
            }
        },
        None => (part.to_owned(), 1),
    }
}

/// Whether a suffix names an operator.
pub open spec fn is_op_name(s: Seq<char>) -> bool {
    s == "eq"@ || s == "ne"@ || s == "gt"@ || s == "gte"@ || s == "lt"@ || s == "lte"@ || s == "in"@
        || s == "exists"@ || s == "notExists"@
}

/// The field and the operator that a parameter's name stands for: without an
/// operator's name behind its last dot it is a field, to be compared by equality.
pub open spec fn field_and_op(key: Seq<char>) -> (Seq<char>, Seq<char>) {
    match last_split(key, '.') {
        Some((f, s)) => if is_op_name(s) {
            (f, s)
        } else {
            (key, "eq"@)
        },
        None => (key, "eq"@),
    }
}

/// The condition that an operator's name and a raw value stand for.
pub open spec fn condition_of(op: Seq<char>, raw: Seq<char>) -> Result<ConditionView, Seq<char>> {
    let value = Some(parsed_value(raw));
    if op == "eq"@ {
        Ok(ConditionView { op: OpView::Eq, value })
    } else if op == "ne"@ {
        Ok(ConditionView { op: OpView::Ne, value })
    } else if op == "gt"@ {
        Ok(ConditionView { op: OpView::Gt, value })
    } else if op == "gte"@ {
        Ok(ConditionView { op: OpView::Gte, value })
    } else if op == "lt"@ {
        Ok(ConditionView { op: OpView::Lt, value })
    } else if op == "lte"@ {
        Ok(ConditionView { op: OpView::Lte, value })
    } else if op == "in"@ {
        Ok(
            ConditionView {
                op: OpView::In(pieces(raw, ',').map_values(|t: Seq<char>| parsed_value(t))),
                value: None,
            },
        )
    } else if op == "notExists"@ {
        match bool_value(raw) {
            Some(true) => Ok(ConditionView { op: OpView::NotExists, value: None }),
            Some(false) => Ok(ConditionView { op: OpView::Exists, value: None }),
            None => Err(with_quoted("invalid exists value "@, raw)),
        }
    } else {
        match bool_value(raw) {
            Some(true) => Ok(ConditionView { op: OpView::Exists, value: None }),
            Some(false) => Ok(ConditionView { op: OpView::NotExists, value: None }),
            None => Err(with_quoted("invalid exists value "@, raw)),
        }
    }
}

/// The filter that a parameter stands for.
pub open spec fn parsed_condition(key: Seq<char>, raw: Seq<char>) -> Result<
    (Seq<char>, ConditionView),
    Seq<char>,
> {
    let (field, op) = field_and_op(key);
    if field.len() == 0 {
        Err(with_quoted("invalid filter field "@, key))
    } else {
        match condition_of(op, raw) {
            Ok(c) => Ok((field, c)),
            Err(e) => Err(e),
        }
    }
}

fn names_op(s: &str) -> (r: bool)
    ensures
        r == is_op_name(s@),
{
    same_text(s, "eq") || same_text(s, "ne") || same_text(s, "gt") || same_text(s, "gte")
        || same_text(s, "lt") || same_text(s, "lte") || same_text(s, "in") || same_text(s, "exists")
        || same_text(s, "notExists")
}

fn parse_list(raw: &str) -> (r: Vec<Json>)
    ensures
        values_view(r@) == pieces(raw@, ',').map_values(|t: Seq<char>| parsed_value(t)),
{
    let parts: Vec<String> = split_text(raw, ',');
    let mut r: Vec<Json> = Vec::new();
    let mut i: usize = 0;
    while i < parts.len()
        invariant
            i <= parts.len(),
            text_views(parts@) == pieces(raw@, ','),
            r.len() == i,
            forall|k: int|
                0 <= k < i ==> json_view(#[trigger] r@[k]) == parsed_value(parts@[k]@),
        decreases parts.len() - i,
    {
        r.push(parse_value(parts[i].as_str()));
        i = i + 1;
    }
    proof {
        let all = pieces(raw@, ',');
        assert forall|k: int| 0 <= k < r@.len() implies values_view(r@)[k] == parsed_value(
            all[k],
        ) by {
            assert(text_views(parts@)[k] == parts@[k]@);
        }
        assert(values_view(r@) =~= all.map_values(|t: Seq<char>| parsed_value(t)));
    }
    r
}

/// A result with a condition, read through its views.
pub open spec fn condition_result(r: Result<(String, Condition), String>) -> Result<
    (Seq<char>, ConditionView),
    Seq<char>,
> {
    match r {
        Ok(p) => Ok((p.0@, p.1@)),
        Err(e) => Err(e@),
    }
}

/// `field` (eq) and `field.op` for gt/gte/lt/lte/ne/in/exists/notExists. The value
/// of the last two is a truth value: `notExists=true` asks for what `exists=false`
/// asks for, a field that is absent.
pub fn parse_condition(key: &str, raw: &str) -> (r: Result<(String, Condition), String>)
    ensures
        condition_result(r) == parsed_condition(key@, raw@),
{
    let (field, op): (String, String) = match split_last(key, '.') {
        Some((f, s)) => if names_op(s.as_str()) {
            (f, s)
        } else {
            (key.to_owned(), "eq".to_owned())
        },
        None => (key.to_owned(), "eq".to_owned()),
    };
    if is_blank(field.as_str()) {
        return Err(join_quoted("invalid filter field ", key));
    }
    let name: &str = op.as_str();
    let condition: Condition = if same_text(name, "eq") {
        Condition { op: Op::Eq, value: Some(parse_value(raw)) }
    } else if same_text(name, "ne") {
        Condition { op: Op::Ne, value: Some(parse_value(raw)) }
    } else if same_text(name, "gt") {
        Condition { op: Op::Gt, value: Some(parse_value(raw)) }
    } else if same_text(name, "gte") {
        Condition { op: Op::Gte, value: Some(parse_value(raw)) }
    } else if same_text(name, "lt") {
        Condition { op: Op::Lt, value: Some(parse_value(raw)) }
    } else if same_text(name, "lte") {
        Condition { op: Op::Lte, value: Some(parse_value(raw)) }
    } else if same_text(name, "in") {
        Condition { op: Op::In(parse_list(raw)), value: None }
    } else {
        match parse_bool(raw) {
            Some(b) => if b == !same_text(name, "notExists") {
                Condition { op: Op::Exists, value: None }
            } else {
                Condition { op: Op::NotExists, value: None }
            },
            None => {
                return Err(join_quoted("invalid exists value ", raw));
            },
        }
    };
    Ok((field, condition))
}

/// A parameterized room listing query.
///
/// ```text
/// name=tictactoe
/// slug=abc123                (any filter field)
/// clients=1 | clients.gte=1 | clients.lt=2
/// locked.exists=false
/// sort=createdAt:desc,clients:asc
/// limit=25&offset=0
/// count=true                 (only `total` is computed)
/// ```
#[derive(Debug)]
pub struct RoomQuery {
    /// Restrict to a single room type name.
    pub name: Option<String>,
    /// Field filters (field, operator and expected value).
    pub conditions: Vec<(String, Condition)>,
    /// Sort keys.
    pub sort: SortOptions,
    pub limit: Option<usize>,
    pub offset: usize,
    /// When true, only `total` is meaningful (items are empty).
    pub count: bool,
}

/// What a query stands for.
pub struct QueryView {
    pub name: Option<Seq<char>>,
    pub conditions: Seq<(Seq<char>, ConditionView)>,
    pub sort: Seq<(Seq<char>, int)>,
    pub limit: Option<usize>,
    pub offset: usize,
    pub count: bool,
}

/// Filters, read through their views.
pub open spec fn conditions_view(cs: Seq<(String, Condition)>) -> Seq<(Seq<char>, ConditionView)> {
    cs.map_values(|c: (String, Condition)| (c.0@, c.1@))
}

/// An optional text, read through its view.
pub open spec fn text_option(t: Option<String>) -> Option<Seq<char>> {
    match t {
        Some(s) => Some(s@),
        None => None,
    }
}

impl View for RoomQuery {
    type V = QueryView;

    open spec fn view(&self) -> QueryView {
        QueryView {
            name: text_option(self.name),
            conditions: conditions_view(self.conditions@),
            sort: sort_view(self.sort@),
            limit: self.limit,
            offset: self.offset,
            count: self.count,
        }
    }
}

/// The query that asks for every room.
pub open spec fn empty_query() -> QueryView {
    QueryView {
        name: None,
        conditions: seq![],
        sort: seq![],
        limit: None,
        offset: 0,
        count: false,
    }
}

/// The query after one more parameter.
pub open spec fn with_param(q: QueryView, key: Seq<char>, raw: Seq<char>) -> Result<
    QueryView,
    Seq<char>,
> {
    if key == "name"@ {
        Ok(QueryView { name: Some(raw), ..q })
    } else if key == "sort"@ {
        match sort_keys(pieces(raw, ',')) {
            Ok(sort) => Ok(QueryView { sort, ..q }),
            Err(e) => Err(e),
        }
    } else if key == "limit"@ {
        match unsigned_value(raw, usize::MAX as nat) {
            Some(n) => Ok(QueryView { limit: Some(n as usize), ..q }),
            None => Err(with_quoted("invalid limit "@, raw)),
        }
    } else if key == "offset"@ {
        match unsigned_value(raw, usize::MAX as nat) {
            Some(n) => Ok(QueryView { offset: n as usize, ..q }),
            None => Err(with_quoted("invalid offset "@, raw)),
        }
    } else if key == "count"@ {
        match bool_value(raw) {
            Some(b) => Ok(QueryView { count: b, ..q }),
            None => Err(with_quoted("invalid count "@, raw)),
        }
    } else {
        match parsed_condition(key, raw) {
            Ok(c) => Ok(QueryView { conditions: q.conditions.push(c), ..q }),
            Err(e) => Err(e),
        }
    }
}

/// The query that parameters stand for, one after the other, or the error of the
/// first one that cannot be read.
pub open spec fn query_of(params: Seq<(String, String)>) -> Result<QueryView, Seq<char>>
    decreases params.len(),
{
    if params.len() == 0 {
        Ok(empty_query())
    } else {
        match query_of(params.drop_last()) {
            Ok(q) => with_param(q, params.last().0@, params.last().1@),
            Err(e) => Err(e),
        }
    }
}

proof fn lemma_query_error(params: Seq<(String, String)>, n: int)
    requires
        0 <= n <= params.len(),
        query_of(params.take(n)) is Err,
    ensures
        query_of(params) == query_of(params.take(n)),
    decreases params.len(),
{
    if n == params.len() {
        assert(params.take(n) =~= params);
    } else {
        assert(params.drop_last().take(n) =~= params.take(n));
        lemma_query_error(params.drop_last(), n);
    }
}

/// A result with a query, read through its views.
pub open spec fn query_result(r: Result<RoomQuery, String>) -> Result<QueryView, Seq<char>> {
    match r {
        Ok(q) => Ok(q@),
        Err(e) => Err(e@),
    }
}

impl Default for RoomQuery {
    fn default() -> (r: Self)
        ensures
            r@ == empty_query(),
    {
        let r = RoomQuery {
            name: None,
            conditions: Vec::new(),
            sort: Vec::new(),
            limit: None,
            offset: 0,
            count: false,
        };
        proof {
            assert(r@.conditions =~= seq![]);
            assert(r@.sort =~= seq![]);
        }
        r
    }
}

impl RoomQuery {
    /// Parses the parameters of a request, in their order.
    ///
    /// Field suffixes select the operator: `clients=2` (eq), `clients.gte=1`,
    /// `slug=abc`, `mode.in=a,b`, `locked.exists=false`. Values are parsed as
    /// numbers/booleans when they look like one, otherwise strings.
    pub fn from_params(params: &Vec<(String, String)>) -> (r: Result<RoomQuery, String>)
        ensures
            query_result(r) == query_of(params@),
    {
        let mut q: RoomQuery = RoomQuery::default();
        let mut i: usize = 0;
        proof {
            assert(params@.take(0) =~= seq![]);
        }
        while i < params.len()
            invariant
                i <= params.len(),
                query_of(params@.take(i as int)) == Ok::<QueryView, Seq<char>>(q@),
            decreases params.len() - i,
        {
            proof {
                assert(params@.take(i + 1).drop_last() =~= params@.take(i as int));
                assert(params@.take(i + 1).last() == params@[i as int]);
            }
            match q.take_param(params[i].0.as_str(), params[i].1.as_str()) {
                Ok(()) => {},
                Err(e) => {
                    proof {
                        lemma_query_error(params@, i + 1);
                    }
                    return Err(e);
                },
            }
            i = i + 1;
        }
        proof {
            assert(params@.take(params@.len() as int) =~= params@);
        }
        Ok(q)
    }

    fn take_param(&mut self, key: &str, raw: &str) -> (r: Result<(), String>)
        ensures
            r is Ok ==> with_param(old(self)@, key@, raw@) == Ok::<QueryView, Seq<char>>(
                final(self)@,
            ),
            r matches Err(e) ==> with_param(old(self)@, key@, raw@) == Err::<QueryView, Seq<char>>(
                e@,
            ),
    {
        if same_text(key, "name") {
            self.name = Some(raw.to_owned());
        } else if same_text(key, "sort") {
            match parse_sort(raw) {
                Ok(s) => {
                    self.sort = s;
                },
                Err(e) => {
                    return Err(e);
                },
            }
        } else if same_text(key, "limit") {
            match parse_unsigned(raw, usize::MAX as u64) {
                Some(n) => {
                    self.limit = Some(n as usize);
                },
                None => {
                    return Err(join_quoted("invalid limit ", raw));
                },
            }
        } else if same_text(key, "offset") {
            match parse_unsigned(raw, usize::MAX as u64) {
                Some(n) => {
                    self.offset = n as usize;
                },
                None => {
                    return Err(join_quoted("invalid offset ", raw));
                },
            }
        } else if same_text(key, "count") {
            match parse_bool(raw) {
                Some(b) => {
                    self.count = b;
                },
                None => {
                    return Err(join_quoted("invalid count ", raw));
                },
            }
        } else {
            match parse_condition(key, raw) {
                Ok(c) => {
                    proof {
                        assert(conditions_view(self.conditions@.push(c)) =~= conditions_view(
                            self.conditions@,
                        ).push((c.0@, c.1@)));
                    }
                    self.conditions.push(c);
                },
                Err(e) => {
                    return Err(e);
                },
            }
        }
        Ok(())
    }

    /// Chainable builder for programmatic use.
    pub fn builder() -> (r: RoomQueryBuilder)
        ensures
            r.0@ == empty_query(),
    {
        RoomQueryBuilder(RoomQuery::default())
    }
}

/// Convenience builder over [`RoomQuery`].
#[derive(Debug)]
pub struct RoomQueryBuilder(pub RoomQuery);

impl RoomQueryBuilder {
    pub fn name(self, name: String) -> (r: Self)
        ensures
            r.0@ == (QueryView { name: Some(name@), ..self.0@ }),
    {
        let mut q: RoomQuery = self.0;
        q.name = Some(name);
        RoomQueryBuilder(q)
    }

    pub fn filter(self, field: String, value: Json) -> (r: Self)
        ensures
            r.0@ == (QueryView {
                conditions: self.0@.conditions.push((field@, equals_condition(value@))),
                ..self.0@
            }),
    {
        let mut q: RoomQuery = self.0;
        let c: (String, Condition) = (field, Condition::eq(value));
        proof {
            assert(conditions_view(q.conditions@.push(c)) =~= conditions_view(
                q.conditions@,
            ).push((c.0@, c.1@)));
        }
        q.conditions.push(c);
        RoomQueryBuilder(q)
    }

    pub fn condition(self, field: String, condition: Condition) -> (r: Self)
        ensures
            r.0@ == (QueryView {
                conditions: self.0@.conditions.push((field@, condition@)),
                ..self.0@
            }),
    {
        let mut q: RoomQuery = self.0;
        let c: (String, Condition) = (field, condition);
        proof {
            assert(conditions_view(q.conditions@.push(c)) =~= conditions_view(
                q.conditions@,
            ).push((c.0@, c.1@)));
        }
        q.conditions.push(c);
        RoomQueryBuilder(q)
    }

    pub fn sort(self, field: String, desc: bool) -> (r: Self)
        ensures
            r.0@ == (QueryView {
                sort: self.0@.sort.push(
                    (
                        field@,
                        if desc {
                            -1int
                        } else {
                            1int
                        },
                    ),
                ),
                ..self.0@
            }),
    {
        let mut q: RoomQuery = self.0;
        let k: (String, i32) = (
            field,
            if desc {
                -1
            } else {
                1
            },
        );
        proof {
            assert(sort_view(q.sort@.push(k)) =~= sort_view(q.sort@).push(
                (k.0@, k.1 as int),
            ));
        }
        q.sort.push(k);
        RoomQueryBuilder(q)
    }

    pub fn limit(self, limit: usize) -> (r: Self)
        ensures
            r.0@ == (QueryView { limit: Some(limit), ..self.0@ }),
    {
        let mut q: RoomQuery = self.0;
        q.limit = Some(limit);
        RoomQueryBuilder(q)
    }

    pub fn offset(self, offset: usize) -> (r: Self)
        ensures
            r.0@ == (QueryView { offset, ..self.0@ }),
    {
        let mut q: RoomQuery = self.0;
        q.offset = offset;
        RoomQueryBuilder(q)
    }

    pub fn count_only(self) -> (r: Self)
        ensures
            r.0@ == (QueryView { count: true, ..self.0@ }),
    {
        let mut q: RoomQuery = self.0;
        q.count = true;
        RoomQueryBuilder(q)
    }

    pub fn build(self) -> (r: RoomQuery)
        ensures
            r@ == self.0@,
    {
        self.0
    }
}

}
