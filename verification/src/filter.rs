//! Operator-style matchmaking filters: `{ "clients": { "lt": 2 }, "slug": "abc" }`.

use crate::json::{clone_values, entries_view, lookup, sorted_keys, values_view, Json, JsonView};
use crate::query::{conditions_view, equals_condition, Condition, ConditionView, Op, OpView};
use crate::text::{join_quoted, same_text, sorted_texts, text_views, with_quoted};
use vstd::prelude::*;

verus! {

/// The condition that an operator and its operand stand for.
pub open spec fn operator_condition(op: Seq<char>, v: JsonView) -> Result<ConditionView, Seq<char>> {
    let value = Some(v);
    if op == "eq"@ {
        Ok(ConditionView { op: OpView::Eq, value })
    } else if op == "ne"@ {
        Ok(ConditionView { op: OpView::Ne, value })
    } else if op == "gt"@ {
        Ok(ConditionView { op: OpView::Gt, value })
    } else if op == "gte"@ {
        Ok(ConditionView { op: OpView::Gte, value })
    } else if op == "lt"@ {
        Ok(ConditionView { op: OpView::Lt, value })
    } else if op == "lte"@ {
        Ok(ConditionView { op: OpView::Lte, value })
    } else if op == "in"@ {
        match v {
            JsonView::Array(s) => Ok(ConditionView { op: OpView::In(s), value: None }),
            _ => Err("filter operator in expects an array"@),
        }
    } else if op == "exists"@ {
        match v {
            JsonView::Bool(true) => Ok(ConditionView { op: OpView::Exists, value: None }),
            JsonView::Bool(false) => Ok(ConditionView { op: OpView::NotExists, value: None }),
            _ => Err("filter operator exists expects a boolean"@),
        }
    } else {
        Err(with_quoted("unknown filter operator "@, op))
    }
}

/// The conditions that operators on one field stand for, in the order of their
/// names, or the error of the first that cannot be read.
pub open spec fn operator_conditions(
    field: Seq<char>,
    m: Map<Seq<char>, JsonView>,
    ops: Seq<Seq<char>>,
) -> Result<Seq<(Seq<char>, ConditionView)>, Seq<char>>
    decreases ops.len(),
{
    if ops.len() == 0 {
        Ok(seq![])
    } else {
        match operator_conditions(field, m, ops.drop_last()) {
            Err(e) => Err(e),
            Ok(cs) => match operator_condition(ops.last(), m[ops.last()]) {
                Ok(c) => Ok(cs.push((field, c))),
                Err(e) => Err(e),
            },
        }
    }
}

/// The conditions on one field: its operators, or equality with a plain value.
pub open spec fn field_filter(field: Seq<char>, v: JsonView) -> Result<
    Seq<(Seq<char>, ConditionView)>,
    Seq<char>,
> {
    match v {
        JsonView::Object(m) => operator_conditions(field, m, sorted_texts(m.dom())),
        _ => Ok(seq![(field, equals_condition(v))]),
    }
}

/// The conditions of a filter's fields, in the order of their names, or the error
/// of the first that cannot be read.
pub open spec fn fields_filter(m: Map<Seq<char>, JsonView>, fields: Seq<Seq<char>>) -> Result<
    Seq<(Seq<char>, ConditionView)>,
    Seq<char>,
>
    decreases fields.len(),
{
    if fields.len() == 0 {
        Ok(seq![])
    } else {
        match fields_filter(m, fields.drop_last()) {
            Err(e) => Err(e),
            Ok(cs) => match field_filter(fields.last(), m[fields.last()]) {
                Ok(more) => Ok(cs + more),
                Err(e) => Err(e),
            },
        }
    }
}

/// The conditions that a filter stands for.
pub open spec fn filter_conditions(v: JsonView) -> Result<
    Seq<(Seq<char>, ConditionView)>,
    Seq<char>,
> {
    match v {
        JsonView::Object(m) => fields_filter(m, sorted_texts(m.dom())),
        _ => Err("filter must be an object"@),
    }
}

/// A result with conditions, read through its views.
pub open spec fn conditions_result(r: Result<Vec<(String, Condition)>, String>) -> Result<
    Seq<(Seq<char>, ConditionView)>,
    Seq<char>,
> {
    match r {
        Ok(cs) => Ok(conditions_view(cs@)),
        Err(e) => Err(e@),
    }
}

fn read_operator(op: &str, v: &Json) -> (r: Result<Condition, String>)
    ensures
        match r {
            Ok(c) => operator_condition(op@, v@) == Ok::<ConditionView, Seq<char>>(c@),
            Err(e) => operator_condition(op@, v@) == Err::<ConditionView, Seq<char>>(e@),
        },
{
    if same_text(op, "eq") {
        Ok(Condition { op: Op::Eq, value: Some(v.clone()) })
    } else if same_text(op, "ne") {
        Ok(Condition { op: Op::Ne, value: Some(v.clone()) })
    } else if same_text(op, "gt") {
        Ok(Condition { op: Op::Gt, value: Some(v.clone()) })
    } else if same_text(op, "gte") {
        Ok(Condition { op: Op::Gte, value: Some(v.clone()) })
    } else if same_text(op, "lt") {
        Ok(Condition { op: Op::Lt, value: Some(v.clone()) })
    } else if same_text(op, "lte") {
        Ok(Condition { op: Op::Lte, value: Some(v.clone()) })
    } else if same_text(op, "in") {
        match v {
            Json::Array(items) => {
                proof {
                    assert(v@->Array_0 =~= values_view(items@));
                }
                Ok(Condition { op: Op::In(clone_values(items)), value: None })
            },
            _ => Err("filter operator in expects an array".to_owned()),
        }
    } else if same_text(op, "exists") {
        match v {
            Json::Bool(b) => if *b {
                Ok(Condition { op: Op::Exists, value: None })
            } else {
                Ok(Condition { op: Op::NotExists, value: None })
            },
            _ => Err("filter operator exists expects a boolean".to_owned()),
        }
    } else {
        Err(join_quoted("unknown filter operator ", op))
    }
}

proof fn lemma_operators_error(
    field: Seq<char>,
    m: Map<Seq<char>, JsonView>,
    ops: Seq<Seq<char>>,
    n: int,
)
    requires
        0 <= n <= ops.len(),
        operator_conditions(field, m, ops.take(n)) is Err,
    ensures
        operator_conditions(field, m, ops) == operator_conditions(field, m, ops.take(n)),
    decreases ops.len(),
{
    if n == ops.len() {
        assert(ops.take(n) =~= ops);
    } else {
        assert(ops.drop_last().take(n) =~= ops.take(n));
        lemma_operators_error(field, m, ops.drop_last(), n);
    }
}

proof fn lemma_fields_error(m: Map<Seq<char>, JsonView>, fields: Seq<Seq<char>>, n: int)
    requires
        0 <= n <= fields.len(),
        fields_filter(m, fields.take(n)) is Err,
    ensures
        fields_filter(m, fields) == fields_filter(m, fields.take(n)),
    decreases fields.len(),
{
    if n == fields.len() {
        assert(fields.take(n) =~= fields);
    } else {
        assert(fields.drop_last().take(n) =~= fields.take(n));
        lemma_fields_error(m, fields.drop_last(), n);
    }
}

fn read_field(field: &str, v: &Json) -> (r: Result<Vec<(String, Condition)>, String>)
    ensures
        conditions_result(r) == field_filter(field@, v@),
{
    match v {
        Json::Object(es) => {
            let names: Vec<String> = sorted_keys(es);
            let ghost m = entries_view(es@);
            let ghost ops = text_views(names@);
            let mut cs: Vec<(String, Condition)> = Vec::new();
            let mut i: usize = 0;
            proof {
                assert(ops.take(0) =~= seq![]);
                assert(conditions_view(cs@) =~= seq![]);
            }
            while i < names.len()
                invariant
                    i <= names.len(),
                    m == entries_view(es@),
                    ops == text_views(names@),
                    ops == sorted_texts(m.dom()),
                    ops.to_set() == m.dom(),
                    v@ == JsonView::Object(m),
                    operator_conditions(field@, m, ops.take(i as int)) == Ok::<
                        Seq<(Seq<char>, ConditionView)>,
                        Seq<char>,
                    >(conditions_view(cs@)),
                decreases names.len() - i,
            {
                proof {
                    assert(ops.take(i + 1).drop_last() =~= ops.take(i as int));
                    assert(ops.take(i + 1).last() == names@[i as int]@);
                    assert(ops.to_set().contains(ops[i as int]));
                }
                if let Some(operand) = lookup(es, names[i].as_str()) {
                    match read_operator(names[i].as_str(), operand) {
                        Ok(c) => {
                            let entry: (String, Condition) = (field.to_owned(), c);
                            let ghost before = cs@;
                            cs.push(entry);
                            proof {
                                assert(conditions_view(cs@) =~= conditions_view(before).push(
                                    (entry.0@, entry.1@),
                                ));
                            }
                        },
                        Err(e) => {
                            proof {
                                lemma_operators_error(field@, m, ops, i + 1);
                            }
                            return Err(e);
                        },
                    }
                }
                i = i + 1;
            }
            proof {
                assert(ops.take(ops.len() as int) =~= ops);
            }
            Ok(cs)
        },
        _ => {
            let mut cs: Vec<(String, Condition)> = Vec::new();
            cs.push((field.to_owned(), Condition::eq(v.clone())));
            proof {
                assert(conditions_view(cs@) =~= seq![(field@, equals_condition(v@))]);
            }
            Ok(cs)
        },
    }
}

/// Parses an operator-style filter: an object whose fields hold a plain value,
/// which is to be equalled, or an object of operators (`eq`, `ne`, `gt`, `gte`,
/// `lt`, `lte`, `in`, `exists`).
pub fn parse_filter(filter: &Json) -> (r: Result<Vec<(String, Condition)>, String>)
    ensures
        conditions_result(r) == filter_conditions(filter@),
{
    match filter {
        Json::Object(es) => {
            let names: Vec<String> = sorted_keys(es);
            let ghost m = entries_view(es@);
            let ghost fields = text_views(names@);
            let mut cs: Vec<(String, Condition)> = Vec::new();
            let mut i: usize = 0;
            proof {
                assert(fields.take(0) =~= seq![]);
                assert(conditions_view(cs@) =~= seq![]);
            }
            while i < names.len()
                invariant
                    i <= names.len(),
                    m == entries_view(es@),
                    fields == text_views(names@),
                    fields == sorted_texts(m.dom()),
                    fields.to_set() == m.dom(),
                    filter@ == JsonView::Object(m),
                    fields_filter(m, fields.take(i as int)) == Ok::<
                        Seq<(Seq<char>, ConditionView)>,
                        Seq<char>,
                    >(conditions_view(cs@)),
                decreases names.len() - i,
            {
                proof {
                    assert(fields.take(i + 1).drop_last() =~= fields.take(i as int));
                    assert(fields.take(i + 1).last() == names@[i as int]@);
                    assert(fields.to_set().contains(fields[i as int]));
                }
                if let Some(v) = lookup(es, names[i].as_str()) {
                    match read_field(names[i].as_str(), v) {
                        Ok(more) => {
                            let ghost before = cs@;
                            let ghost added = more@;
                            let mut rest: Vec<(String, Condition)> = more;
                            cs.append(&mut rest);
                            proof {
                                assert(conditions_view(cs@) =~= conditions_view(before)
                                    + conditions_view(added));
                            }
                        },
                        Err(e) => {
                            proof {
                                lemma_fields_error(m, fields, i + 1);
                            }
                            return Err(e);
                        },
                    }
                }
                i = i + 1;
            }
            proof {
                assert(fields.take(fields.len() as int) =~= fields);
            }
            Ok(cs)
        },
        _ => Err("filter must be an object".to_owned()),
    }
}

}
