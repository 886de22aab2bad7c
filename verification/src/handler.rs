//! Registered room types: how requests are matched with rooms.

use crate::json::{
    clone_entries, entries_view, lemma_entries_push, lookup, put_field, values_view, Json, JsonView,
};
use crate::query::{
    condition_holds, conditions_view, equals_condition, field_value, option_view, ref_view,
    sort_view, value_under, Condition, ConditionView, Op, OpView, SortOptions,
};
use crate::text::{
    is_less, joined, lemma_pieces_first, lemma_text_less_irreflexive, lemma_text_less_total,
    lemma_text_less_transitive, pieces, same_text, text_less, text_views,
};
use crate::value::json_text;
use vstd::prelude::*;
use vstd::string::*;

verus! {

/// A registered room type.
#[derive(Debug)]
pub struct RegisteredHandler {
    pub name: String,
    pub filter_by: Vec<String>,
    pub sort_by: SortOptions,
    pub default_options: Option<Json>,
    pub internal: bool,
    /// Whether rooms of this type are persisted and restored.
    pub persistent: bool,
    /// Option fields forming a uniqueness key: creation reuses a live room with
    /// the same key instead of creating a duplicate.
    pub unique_by: Vec<String>,
    /// Whether a request that omits a filter field only matches rooms that omit
    /// it too.
    pub strict_filter: bool,
}

/// What a registered room type stands for.
pub struct HandlerView {
    pub name: Seq<char>,
    pub filter_by: Seq<Seq<char>>,
    pub sort_by: Seq<(Seq<char>, int)>,
    pub default_options: Option<JsonView>,
    pub internal: bool,
    pub persistent: bool,
    pub unique_by: Seq<Seq<char>>,
    pub strict_filter: bool,
}

impl View for RegisteredHandler {
    type V = HandlerView;

    open spec fn view(&self) -> HandlerView {
        HandlerView {
            name: self.name@,
            filter_by: text_views(self.filter_by@),
            sort_by: sort_view(self.sort_by@),
            default_options: option_view(self.default_options),
            internal: self.internal,
            persistent: self.persistent,
            unique_by: text_views(self.unique_by@),
            strict_filter: self.strict_filter,
        }
    }
}

/// A field of a request's options.
pub open spec fn option_field(options: JsonView, field: Seq<char>) -> Option<JsonView> {
    match options {
        JsonView::Object(m) => if m.dom().contains(field) {
            Some(m[field])
        } else {
            None
        },
        _ => None,
    }
}

/// A field of a request's options.
pub fn get_field<'a>(options: &'a Json, field: &str) -> (r: Option<&'a Json>)
    ensures
        ref_view(r) == option_field(options@, field@),
{
    match options {
        Json::Object(es) => lookup(es, field),
        _ => None,
    }
}

/// The condition that a field is absent.
pub open spec fn absent_condition() -> ConditionView {
    ConditionView { op: OpView::NotExists, value: None }
}

/// The conditions that fields of the options stand for: equality where the field
/// is given; where it is not, absence or, for a wildcard, nothing.
pub open spec fn field_conditions(fields: Seq<Seq<char>>, options: JsonView, strict: bool) -> Seq<
    (Seq<char>, ConditionView),
>
    decreases fields.len(),
{
    if fields.len() == 0 {
        seq![]
    } else {
        let before = field_conditions(fields.drop_last(), options, strict);
        match option_field(options, fields.last()) {
            Some(v) => before.push((fields.last(), equals_condition(v))),
            None => if strict {
                before.push((fields.last(), absent_condition()))
            } else {
                before
            },
        }
    }
}

/// The conditions on rooms that a request may join: of this type, neither locked
/// nor private, and with the request's filter fields.
pub open spec fn match_conditions_of(h: HandlerView, options: JsonView) -> Seq<
    (Seq<char>, ConditionView),
> {
    seq![
        ("name"@, equals_condition(JsonView::Str(h.name))),
        ("locked"@, equals_condition(JsonView::Bool(false))),
        ("private"@, equals_condition(JsonView::Bool(false))),
    ] + field_conditions(h.filter_by, options, h.strict_filter)
}

/// The conditions on rooms with the same uniqueness key: of this type, and with
/// the same unique fields or without them.
pub open spec fn unique_conditions_of(h: HandlerView, options: JsonView) -> Seq<
    (Seq<char>, ConditionView),
> {
    seq![("name"@, equals_condition(JsonView::Str(h.name)))] + field_conditions(
        h.unique_by,
        options,
        true,
    )
}

/// The fields of the options with these names.
pub open spec fn picked_fields(fields: Seq<Seq<char>>, options: JsonView) -> Map<Seq<char>, JsonView>
    decreases fields.len(),
{
    if fields.len() == 0 {
        Map::empty()
    } else {
        let before = picked_fields(fields.drop_last(), options);
        match option_field(options, fields.last()) {
            Some(v) => before.insert(fields.last(), v),
            None => before,
        }
    }
}

/// A room's options: what the request gives, over the defaults.
pub open spec fn options_merged(defaults: Option<JsonView>, options: JsonView) -> JsonView {
    match (defaults, options) {
        (Some(JsonView::Object(d)), JsonView::Object(o)) => JsonView::Object(
            d.union_prefer_right(o),
        ),
        (Some(_), JsonView::Object(o)) => options,
        (Some(d), JsonView::Null) => d,
        _ => options,
    }
}

fn field_conditions_from(fields: &Vec<String>, options: &Json, strict: bool) -> (r: Vec<
    (String, Condition),
>)
    ensures
        conditions_view(r@) == field_conditions(text_views(fields@), options@, strict),
{
    let ghost fs = text_views(fields@);
    let mut r: Vec<(String, Condition)> = Vec::new();
    let mut i: usize = 0;
    proof {
        assert(fs.take(0) =~= seq![]);
        assert(conditions_view(r@) =~= seq![]);
    }
    while i < fields.len()
        invariant
            i <= fields.len(),
            fs == text_views(fields@),
            conditions_view(r@) == field_conditions(fs.take(i as int), options@, strict),
        decreases fields.len() - i,
    {
        proof {
            assert(fs.take(i + 1).drop_last() =~= fs.take(i as int));
            assert(fs.take(i + 1).last() == fields@[i as int]@);
        }
        let ghost before = r@;
        match get_field(options, fields[i].as_str()) {
            Some(v) => {
                let c: (String, Condition) = (fields[i].clone(), Condition::eq(v.clone()));
                r.push(c);
                proof {
                    assert(conditions_view(r@) =~= conditions_view(before).push((c.0@, c.1@)));
                }
            },
            None => {
                if strict {
                    let c: (String, Condition) = (
                        fields[i].clone(),
                        Condition { op: Op::NotExists, value: None },
                    );
                    r.push(c);
                    proof {
                        assert(conditions_view(r@) =~= conditions_view(before).push((c.0@, c.1@)));
                    }
                }
            },
        }
        i = i + 1;
    }
    proof {
        assert(fs.take(fs.len() as int) =~= fs);
    }
    r
}

/// Copies of texts.
pub fn copy_texts(v: &Vec<String>) -> (r: Vec<String>)
    ensures
        text_views(r@) == text_views(v@),
{
    let mut r: Vec<String> = Vec::new();
    let mut i: usize = 0;
    while i < v.len()
        invariant
            i <= v.len(),
            r.len() == i,
            forall|k: int| 0 <= k < i ==> (#[trigger] r@[k])@ == v@[k]@,
        decreases v.len() - i,
    {
        r.push(v[i].clone());
        i = i + 1;
    }
    proof {
        assert(text_views(r@) =~= text_views(v@));
    }
    r
}

fn texts_json(v: &Vec<String>) -> (r: Json)
    ensures
        r@ == JsonView::Array(text_views(v@).map_values(|t: Seq<char>| JsonView::Str(t))),
{
    let mut items: Vec<Json> = Vec::new();
    let mut i: usize = 0;
    while i < v.len()
        invariant
            i <= v.len(),
            items.len() == i,
            forall|k: int| 0 <= k < i ==> (#[trigger] items@[k])@ == JsonView::Str(v@[k]@),
        decreases v.len() - i,
    {
        items.push(Json::Str(v[i].clone()));
        i = i + 1;
    }
    proof {
        assert(values_view(items@) =~= text_views(v@).map_values(
            |t: Seq<char>| JsonView::Str(t),
        ));
    }
    Json::array(items)
}

/// A sort key as JSON.
pub open spec fn sort_key_json(k: (Seq<char>, int)) -> JsonView {
    JsonView::Array(seq![JsonView::Str(k.0), JsonView::Int(k.1)])
}

fn sort_json(v: &SortOptions) -> (r: Json)
    ensures
        r@ == JsonView::Array(sort_view(v@).map_values(|k: (Seq<char>, int)| sort_key_json(k))),
{
    let ghost keys = sort_view(v@);
    let mut items: Vec<Json> = Vec::new();
    let mut i: usize = 0;
    while i < v.len()
        invariant
            i <= v.len(),
            keys == sort_view(v@),
            items.len() == i,
            forall|k: int| 0 <= k < i ==> (#[trigger] items@[k])@ == sort_key_json(keys[k]),
        decreases v.len() - i,
    {
        let mut pair: Vec<Json> = Vec::new();
        pair.push(Json::Str(v[i].0.clone()));
        pair.push(Json::Int(v[i].1 as i64));
        proof {
            assert(values_view(pair@) =~= sort_key_json(keys[i as int])->Array_0);
        }
        items.push(Json::array(pair));
        i = i + 1;
    }
    proof {
        assert(values_view(items@) =~= keys.map_values(
            |k: (Seq<char>, int)| sort_key_json(k),
        ));
    }
    Json::array(items)
}

/// The machine-readable description of a room type.
pub open spec fn schema_of(h: HandlerView) -> JsonView {
    let names = |fs: Seq<Seq<char>>|
        JsonView::Array(fs.map_values(|t: Seq<char>| JsonView::Str(t)));
    let base = Map::<Seq<char>, JsonView>::empty().insert("name"@, JsonView::Str(h.name)).insert(
        "filterBy"@,
        names(h.filter_by),
    ).insert("uniqueBy"@, names(h.unique_by)).insert(
        "sortBy"@,
        JsonView::Array(h.sort_by.map_values(|k: (Seq<char>, int)| sort_key_json(k))),
    ).insert("strictFilterFields"@, JsonView::Bool(h.strict_filter)).insert(
        "internal"@,
        JsonView::Bool(h.internal),
    ).insert("persistent"@, JsonView::Bool(h.persistent));
    JsonView::Object(
        match h.default_options {
            Some(d) => base.insert("defaultOptions"@, d),
            None => base,
        },
    )
}

impl RegisteredHandler {
    /// A room type that can be matched by anybody and is persisted.
    pub fn new(name: &str) -> (r: Self)
        ensures
            r@ == (HandlerView {
                name: name@,
                filter_by: seq![],
                sort_by: seq![],
                default_options: None,
                internal: false,
                persistent: true,
                unique_by: seq![],
                strict_filter: false,
            }),
    {
        let r = RegisteredHandler {
            name: name.to_owned(),
            filter_by: Vec::new(),
            sort_by: Vec::new(),
            default_options: None,
            internal: false,
            persistent: true,
            unique_by: Vec::new(),
            strict_filter: false,
        };
        proof {
            assert(r@.filter_by =~= seq![]);
            assert(r@.sort_by =~= seq![]);
            assert(r@.unique_by =~= seq![]);
        }
        r
    }

    /// Marks this room type as internal: clients can join its rooms but not
    /// create them.
    pub fn internal(&mut self)
        ensures
            final(self)@ == (HandlerView { internal: true, ..old(self)@ }),
    {
        self.internal = true;
    }

    pub fn is_internal(&self) -> (r: bool)
        ensures
            r == self@.internal,
    {
        self.internal
    }

    /// Sets whether rooms of this type are persisted to snapshots.
    pub fn persistent(&mut self, persistent: bool)
        ensures
            final(self)@ == (HandlerView { persistent, ..old(self)@ }),
    {
        self.persistent = persistent;
    }

    pub fn is_persistent(&self) -> (r: bool)
        ensures
            r == self@.persistent,
    {
        self.persistent
    }

    /// Which option fields are used to filter rooms during matchmaking. The fields
    /// are also exposed on the room listing.
    pub fn filter_by(&mut self, fields: Vec<String>)
        ensures
            final(self)@ == (HandlerView { filter_by: text_views(fields@), ..old(self)@ }),
    {
        self.filter_by = fields;
    }

    /// How candidate rooms are sorted during matchmaking.
    pub fn sort_by(&mut self, sort: SortOptions)
        ensures
            final(self)@ == (HandlerView { sort_by: sort_view(sort@), ..old(self)@ }),
    {
        self.sort_by = sort;
    }

    /// Default options merged into (and overridden by) the request's options.
    pub fn default_options(&mut self, options: Json)
        ensures
            final(self)@ == (HandlerView { default_options: Some(options@), ..old(self)@ }),
    {
        self.default_options = Some(options);
    }

    /// Option fields forming a uniqueness key.
    pub fn unique_by(&mut self, fields: Vec<String>)
        ensures
            final(self)@ == (HandlerView { unique_by: text_views(fields@), ..old(self)@ }),
    {
        self.unique_by = fields;
    }

    /// How requests that omit a filter field behave during matchmaking: by
    /// default the missing field is a wildcard; strictly, it only matches rooms
    /// that are also missing it.
    pub fn strict_filter_fields(&mut self, strict: bool)
        ensures
            final(self)@ == (HandlerView { strict_filter: strict, ..old(self)@ }),
    {
        self.strict_filter = strict;
    }

    /// The conditions on rooms that a request may join.
    pub fn match_conditions(&self, options: &Json) -> (r: Vec<(String, Condition)>)
        ensures
            conditions_view(r@) == match_conditions_of(self@, options@),
    {
        let mut r: Vec<(String, Condition)> = Vec::new();
        r.push(("name".to_owned(), Condition::eq(Json::Str(self.name.clone()))));
        r.push(("locked".to_owned(), Condition::eq(Json::Bool(false))));
        r.push(("private".to_owned(), Condition::eq(Json::Bool(false))));
        let ghost first = r@;
        let mut fields: Vec<(String, Condition)> = field_conditions_from(
            &self.filter_by,
            options,
            self.strict_filter,
        );
        let ghost second = fields@;
        r.append(&mut fields);
        proof {
            assert(conditions_view(first) =~= seq![
                ("name"@, equals_condition(JsonView::Str(self@.name))),
                ("locked"@, equals_condition(JsonView::Bool(false))),
                ("private"@, equals_condition(JsonView::Bool(false))),
            ]);
            assert(conditions_view(r@) =~= conditions_view(first) + conditions_view(second));
        }
        r
    }

    /// The conditions on rooms with the same uniqueness key.
    pub fn unique_conditions(&self, options: &Json) -> (r: Vec<(String, Condition)>)
        ensures
            conditions_view(r@) == unique_conditions_of(self@, options@),
    {
        let mut r: Vec<(String, Condition)> = Vec::new();
        r.push(("name".to_owned(), Condition::eq(Json::Str(self.name.clone()))));
        let ghost first = r@;
        let mut fields: Vec<(String, Condition)> = field_conditions_from(
            &self.unique_by,
            options,
            true,
        );
        let ghost second = fields@;
        r.append(&mut fields);
        proof {
            assert(conditions_view(first) =~= seq![
                ("name"@, equals_condition(JsonView::Str(self@.name))),
            ]);
            assert(conditions_view(r@) =~= conditions_view(first) + conditions_view(second));
        }
        r
    }

    /// The filter and unique fields of the options, to be shown on the listing.
    pub fn filter_extra(&self, options: &Json) -> (r: Vec<(String, Json)>)
        ensures
            entries_view(r@) == picked_fields(self@.filter_by + self@.unique_by, options@),
    {
        let ghost all = self@.filter_by + self@.unique_by;
        let n: usize = self.filter_by.len();
        let mut r: Vec<(String, Json)> = Vec::new();
        let mut i: usize = 0;
        proof {
            assert(all.take(0) =~= seq![]);
        }
        while i < n
            invariant
                i <= n,
                n == self.filter_by.len(),
                all == self@.filter_by + self@.unique_by,
                entries_view(r@) == picked_fields(all.take(i as int), options@),
            decreases n - i,
        {
            proof {
                assert(all.take(i + 1).drop_last() =~= all.take(i as int));
                assert(all.take(i + 1).last() == self.filter_by@[i as int]@);
            }
            if let Some(v) = get_field(options, self.filter_by[i].as_str()) {
                put_field(&mut r, self.filter_by[i].as_str(), v.clone());
            }
            i = i + 1;
        }
        let mut j: usize = 0;
        while j < self.unique_by.len()
            invariant
                j <= self.unique_by.len(),
                n == self.filter_by.len(),
                all == self@.filter_by + self@.unique_by,
                entries_view(r@) == picked_fields(all.take(n + j), options@),
            decreases self.unique_by.len() - j,
        {
            proof {
                assert(all.take(n + j + 1).drop_last() =~= all.take(n + j));
                assert(all.take(n + j + 1).last() == self.unique_by@[j as int]@);
            }
            if let Some(v) = get_field(options, self.unique_by[j].as_str()) {
                put_field(&mut r, self.unique_by[j].as_str(), v.clone());
            }
            j = j + 1;
        }
        proof {
            assert(all.take(n + j) =~= all);
        }
        r
    }

    /// Machine-readable description of the room type.
    pub fn schema(&self) -> (r: Json)
        ensures
            r@ == schema_of(self@),
    {
        let mut es: Vec<(String, Json)> = Vec::new();
        put_field(&mut es, "name", Json::Str(self.name.clone()));
        put_field(&mut es, "filterBy", texts_json(&self.filter_by));
        put_field(&mut es, "uniqueBy", texts_json(&self.unique_by));
        put_field(&mut es, "sortBy", sort_json(&self.sort_by));
        put_field(&mut es, "strictFilterFields", Json::Bool(self.strict_filter));
        put_field(&mut es, "internal", Json::Bool(self.internal));
        put_field(&mut es, "persistent", Json::Bool(self.persistent));
        if let Some(d) = &self.default_options {
            put_field(&mut es, "defaultOptions", d.clone());
        }
        Json::Object(es)
    }

    /// The options of a room that is to be created for a request.
    pub fn merged_options(&self, options: Json) -> (r: Json)
        ensures
            r@ == options_merged(self@.default_options, options@),
    {
        match (&self.default_options, options) {
            (Some(Json::Object(defaults)), Json::Object(opts)) => {
                let mut es: Vec<(String, Json)> = clone_entries(defaults);
                let ghost d = entries_view(defaults@);
                let ghost o = entries_view(opts@);
                let mut i: usize = 0;
                proof {
                    assert(d.union_prefer_right(entries_view(opts@.take(0))) =~= d);
                }
                while i < opts.len()
                    invariant
                        i <= opts.len(),
                        entries_view(es@) == d.union_prefer_right(
                            entries_view(opts@.take(i as int)),
                        ),
                    decreases opts.len() - i,
                {
                    proof {
                        assert(opts@.take(i + 1) =~= opts@.take(i as int).push(opts@[i as int]));
                        lemma_entries_push(opts@.take(i as int), opts@[i as int]);
                    }
                    put_field(&mut es, opts[i].0.as_str(), opts[i].1.clone());
                    proof {
                        assert(entries_view(es@) =~= d.union_prefer_right(
                            entries_view(opts@.take(i + 1)),
                        ));
                    }
                    i = i + 1;
                }
                proof {
                    assert(opts@.take(opts@.len() as int) =~= opts@);
                }
                Json::Object(es)
            },
            (Some(_), Json::Object(opts)) => Json::Object(opts),
            (Some(d), Json::Null) => d.clone(),
            (_, other) => other,
        }
    }
}

/// Defaults give way to what the request says, and fill in what it leaves out.
pub proof fn law_request_overrides_defaults(
    defaults: Map<Seq<char>, JsonView>,
    options: Map<Seq<char>, JsonView>,
    field: Seq<char>,
)
    ensures
        option_field(
            options_merged(Some(JsonView::Object(defaults)), JsonView::Object(options)),
            field,
        ) == if options.dom().contains(field) {
            Some(options[field])
        } else {
            option_field(JsonView::Object(defaults), field)
        },
{
}

/// A strict request without a field never matches a room that has it; a wildcard
/// request does not ask.
pub proof fn law_strict_fields_do_not_cross(
    h: HandlerView,
    options: JsonView,
    i: int,
    flat: JsonView,
)
    requires
        h.strict_filter,
        0 <= i < h.filter_by.len(),
        option_field(options, h.filter_by[i]) is None,
        field_value(flat, h.filter_by[i]) is Some,
    ensures
        exists|k: int|
            0 <= k < match_conditions_of(h, options).len() && !condition_holds(
                field_value(flat, (#[trigger] match_conditions_of(h, options)[k]).0),
                match_conditions_of(h, options)[k].1,
            ),
{
    lemma_strict_condition(h.filter_by, options, i);
    let fs = field_conditions(h.filter_by, options, true);
    let k = choose|k: int|
        0 <= k < fs.len() && #[trigger] fs[k] == (h.filter_by[i], absent_condition());
    assert(match_conditions_of(h, options)[3 + k] == fs[k]);
}

proof fn lemma_strict_condition(fields: Seq<Seq<char>>, options: JsonView, i: int)
    requires
        0 <= i < fields.len(),
        option_field(options, fields[i]) is None,
    ensures
        exists|k: int|
            0 <= k < field_conditions(fields, options, true).len() && #[trigger] field_conditions(
                fields,
                options,
                true,
            )[k] == (fields[i], absent_condition()),
    decreases fields.len(),
{
    let cs = field_conditions(fields, options, true);
    let before = field_conditions(fields.drop_last(), options, true);
    if i == fields.len() - 1 {
        assert(cs[before.len() as int] == (fields[i], absent_condition()));
    } else {
        lemma_strict_condition(fields.drop_last(), options, i);
        let k = choose|k: int|
            0 <= k < before.len() && #[trigger] before[k] == (fields[i], absent_condition());
        assert(cs[k] == before[k]);
    }
}

/// The picked fields are those that are given, with their values.
pub proof fn lemma_picked_field(fields: Seq<Seq<char>>, options: JsonView, f: Seq<char>)
    ensures
        picked_fields(fields, options).dom().contains(f) <==> fields.contains(f) && option_field(
            options,
            f,
        ) is Some,
        picked_fields(fields, options).dom().contains(f) ==> option_field(options, f) == Some(
            picked_fields(fields, options)[f],
        ),
    decreases fields.len(),
{
    if fields.len() > 0 {
        let init = fields.drop_last();
        lemma_picked_field(init, options, f);
        assert(fields.contains(f) <==> init.contains(f) || fields.last() == f) by {
            if fields.contains(f) {
                let i = choose|i: int| 0 <= i < fields.len() && fields[i] == f;
                if i < init.len() {
                    assert(init[i] == f);
                }
            }
            if init.contains(f) {
                let i = choose|i: int| 0 <= i < init.len() && init[i] == f;
                assert(fields[i] == f);
            }
            assert(fields[fields.len() - 1] == fields.last());
        }
    }
}

/// An object shows what the options give of some fields: each is a key without a
/// dot, with the value that is given, or without one where none is.
pub open spec fn shows_fields(
    object: Map<Seq<char>, JsonView>,
    fields: Seq<Seq<char>>,
    options: JsonView,
) -> bool {
    forall|i: int|
        0 <= i < fields.len() ==> !(#[trigger] fields[i]).contains('.') && (match option_field(
            options,
            fields[i],
        ) {
            Some(v) => object.dom().contains(fields[i]) && object[fields[i]] == v,
            None => !object.dom().contains(fields[i]),
        })
}

/// Fields that an object shows meet their conditions.
pub proof fn lemma_shown_fields(
    object: Map<Seq<char>, JsonView>,
    fields: Seq<Seq<char>>,
    options: JsonView,
)
    requires
        shows_fields(object, fields, options),
    ensures
        forall|k: int|
            0 <= k < field_conditions(fields, options, true).len() ==> condition_holds(
                field_value(
                    JsonView::Object(object),
                    (#[trigger] field_conditions(fields, options, true)[k]).0,
                ),
                field_conditions(fields, options, true)[k].1,
            ),
    decreases fields.len(),
{
    if fields.len() > 0 {
        let init = fields.drop_last();
        let f = fields.last();
        assert forall|i: int| 0 <= i < init.len() implies !(#[trigger] init[i]).contains('.') && (
        match option_field(options, init[i]) {
            Some(v) => object.dom().contains(init[i]) && object[init[i]] == v,
            None => !object.dom().contains(init[i]),
        }) by {
            assert(init[i] == fields[i]);
        }
        lemma_shown_fields(object, init, options);
        assert(f == fields[fields.len() - 1]);
        lemma_plain_field(object, f);
        let before = field_conditions(init, options, true);
        let cs = field_conditions(fields, options, true);
        assert forall|k: int| 0 <= k < cs.len() implies condition_holds(
            field_value(JsonView::Object(object), (#[trigger] cs[k]).0),
            cs[k].1,
        ) by {
            if k < before.len() {
                assert(cs[k] == before[k]);
            }
        }
    }
}

/// A path without a dot names a key.
pub proof fn lemma_plain_field(object: Map<Seq<char>, JsonView>, f: Seq<char>)
    requires
        !f.contains('.'),
    ensures
        field_value(JsonView::Object(object), f) == if object.dom().contains(f) {
            Some(object[f])
        } else {
            None
        },
{
    lemma_pieces_first(f, seq![], '.');
    let keys = pieces(f, '.');
    assert(keys.drop_first() =~= Seq::<Seq<char>>::empty());
    reveal_with_fuel(value_under, 2);
}

// ---------------------------------------------------------------------
// keys of conditions
// ---------------------------------------------------------------------

/// What a condition looks like in a key.
pub open spec fn condition_text(c: ConditionView) -> Seq<char> {
    match c.op {
        OpView::NotExists => "<absent>"@,
        OpView::Exists => "<present>"@,
        _ => match c.value {
            Some(v) => json_text(v),
            None => "null"@,
        },
    }
}

/// A field that every request has.
pub open spec fn is_common_field(f: Seq<char>) -> bool {
    f == "locked"@ || f == "private"@ || f == "name"@
}

/// The entries of a key, in the order of the conditions.
pub open spec fn key_entries(cs: Seq<(Seq<char>, ConditionView)>) -> Seq<Seq<char>>
    decreases cs.len(),
{
    if cs.len() == 0 {
        seq![]
    } else if is_common_field(cs.last().0) {
        key_entries(cs.drop_last())
    } else {
        key_entries(cs.drop_last()).push(cs.last().0 + seq!['='] + condition_text(cs.last().1))
    }
}

/// A text put into a sorted sequence, behind those that do not stand after it.
pub open spec fn text_inserted(s: Seq<Seq<char>>, t: Seq<char>) -> Seq<Seq<char>>
    decreases s.len(),
{
    if s.len() == 0 || !text_less(t, s.last()) {
        s.push(t)
    } else {
        text_inserted(s.drop_last(), t).push(s.last())
    }
}

/// The texts in order.
pub open spec fn texts_sorted(s: Seq<Seq<char>>) -> Seq<Seq<char>>
    decreases s.len(),
{
    if s.len() == 0 {
        s
    } else {
        text_inserted(texts_sorted(s.drop_last()), s.last())
    }
}

/// The texts with a separator between them.
pub open spec fn texts_joined(s: Seq<Seq<char>>, sep: char) -> Seq<char>
    decreases s.len(),
{
    if s.len() == 0 {
        seq![]
    } else if s.len() == 1 {
        s[0]
    } else {
        texts_joined(s.drop_last(), sep) + seq![sep] + s.last()
    }
}

/// A key for a set of conditions.
pub open spec fn key_of(cs: Seq<(Seq<char>, ConditionView)>) -> Seq<char> {
    texts_joined(texts_sorted(key_entries(cs)), '&')
}

fn condition_key(condition: &Condition) -> (r: String)
    ensures
        r@ == condition_text(condition@),
{
    match &condition.op {
        Op::NotExists => "<absent>".to_owned(),
        Op::Exists => "<present>".to_owned(),
        _ => match &condition.value {
            Some(v) => v.text(),
            None => "null".to_owned(),
        },
    }
}

fn insert_text(v: &mut Vec<String>, t: String)
    ensures
        text_views(final(v)@) == text_inserted(text_views(old(v)@), t@),
{
    let ghost all = text_views(v@);
    let ghost tv = t@;
    let mut i: usize = v.len();
    let ghost mut tail: Seq<Seq<char>> = seq![];
    proof {
        assert(all.take(all.len() as int) =~= all);
        assert(text_inserted(all, tv) + tail =~= text_inserted(all, tv));
        assert(all + tail =~= all);
    }
    while i > 0 && is_less(t.as_str(), v[i - 1].as_str())
        invariant
            i <= v.len(),
            i <= all.len(),
            text_views(v@) == all,
            tv == t@,
            all == all.take(i as int) + tail,
            text_inserted(all, tv) == text_inserted(all.take(i as int), tv) + tail,
        decreases i,
    {
        proof {
            let prefix = all.take(i as int);
            assert(prefix.last() == v@[i - 1]@);
            assert(prefix.drop_last() =~= all.take(i - 1));
            let more = seq![prefix.last()] + tail;
            assert(text_inserted(prefix, tv) + tail =~= text_inserted(all.take(i - 1), tv) + more);
            assert(all =~= all.take(i - 1) + more);
            tail = more;
        }
        i = i - 1;
    }
    v.insert(i, t);
    proof {
        let prefix = all.take(i as int);
        if i > 0 {
            assert(prefix.last() == all[i - 1]);
        }
        assert(text_inserted(prefix, tv) == prefix.push(tv));
        assert(text_views(v@) =~= all.insert(i as int, tv));
        assert(text_views(v@) =~= prefix.push(tv) + tail);
    }
}

fn join_texts(v: &Vec<String>, sep: char) -> (r: String)
    ensures
        r@ == texts_joined(text_views(v@), sep),
{
    let ghost all = text_views(v@);
    let mut r: String = String::new();
    let mut i: usize = 0;
    proof {
        assert(all.take(0) =~= seq![]);
    }
    while i < v.len()
        invariant
            i <= v.len(),
            all == text_views(v@),
            r@ == texts_joined(all.take(i as int), sep),
        decreases v.len() - i,
    {
        proof {
            assert(all.take(i + 1).drop_last() =~= all.take(i as int));
            assert(all.take(i + 1).last() == v@[i as int]@);
        }
        if i > 0 {
            r.push(sep);
        }
        r.append(v[i].as_str());
        proof {
            assert(r@ =~= texts_joined(all.take(i + 1), sep));
        }
        i = i + 1;
    }
    proof {
        assert(all.take(all.len() as int) =~= all);
    }
    r
}

/// A stable key for a set of matchmaking conditions.
pub fn conditions_key(conditions: &Vec<(String, Condition)>) -> (r: String)
    ensures
        r@ == key_of(conditions_view(conditions@)),
{
    let ghost cs = conditions_view(conditions@);
    let mut entries: Vec<String> = Vec::new();
    let mut i: usize = 0;
    proof {
        assert(cs.take(0) =~= seq![]);
        assert(text_views(entries@) =~= texts_sorted(key_entries(cs.take(0))));
    }
    while i < conditions.len()
        invariant
            i <= conditions.len(),
            cs == conditions_view(conditions@),
            text_views(entries@) == texts_sorted(key_entries(cs.take(i as int))),
        decreases conditions.len() - i,
    {
        let k: &str = conditions[i].0.as_str();
        proof {
            assert(cs.take(i + 1).drop_last() =~= cs.take(i as int));
            assert(cs.take(i + 1).last() == (conditions@[i as int].0@, conditions@[i as int].1@));
        }
        if !(same_text(k, "locked") || same_text(k, "private") || same_text(k, "name")) {
            let mut entry: String = joined(k, "=");
            let text: String = condition_key(&conditions[i].1);
            entry.append(text.as_str());
            proof {
                reveal_strlit("=");
                assert("="@ =~= seq!['=']);
                let es = key_entries(cs.take(i + 1));
                assert(es.drop_last() =~= key_entries(cs.take(i as int)));
                assert(es.last() == entry@);
            }
            insert_text(&mut entries, entry);
        }
        i = i + 1;
    }
    proof {
        assert(cs.take(cs.len() as int) =~= cs);
    }
    join_texts(&entries, '&')
}

// ---------------------------------------------------------------------
// the key does not depend on the order of the conditions
// ---------------------------------------------------------------------

/// No text stands before one that is in front of it.
pub open spec fn weakly_sorted(s: Seq<Seq<char>>) -> bool {
    forall|i: int, j: int| 0 <= i < j < s.len() ==> !text_less(#[trigger] s[j], #[trigger] s[i])
}

proof fn lemma_inserted(s: Seq<Seq<char>>, t: Seq<char>)
    requires
        weakly_sorted(s),
    ensures
        weakly_sorted(text_inserted(s, t)),
        text_inserted(s, t).to_multiset() == s.to_multiset().insert(t),
        forall|i: int|
            0 <= i < text_inserted(s, t).len() ==> s.contains(#[trigger] text_inserted(s, t)[i])
                || text_inserted(s, t)[i] == t,
    decreases s.len(),
{
    broadcast use vstd::seq_lib::group_to_multiset_ensures;

    let u = text_inserted(s, t);
    if s.len() == 0 || !text_less(t, s.last()) {
        assert forall|i: int, j: int| 0 <= i < j < u.len() implies !text_less(
            #[trigger] u[j],
            #[trigger] u[i],
        ) by {
            if j < s.len() {
                assert(!text_less(s[j], s[i]));
            } else if text_less(t, s[i]) {
                let last = s.last();
                if i < s.len() - 1 {
                    assert(!text_less(s[s.len() - 1], s[i]));
                    if s[i] == last {
                    } else {
                        lemma_text_less_total(s[i], last);
                        lemma_text_less_transitive(t, s[i], last);
                    }
                }
            }
        }
        assert forall|i: int| 0 <= i < u.len() implies s.contains(#[trigger] u[i]) || u[i]
            == t by {
            if i < s.len() {
                assert(u[i] == s[i]);
            }
        }
    } else {
        let init = s.drop_last();
        let last = s.last();
        assert forall|i: int, j: int| 0 <= i < j < init.len() implies !text_less(
            #[trigger] init[j],
            #[trigger] init[i],
        ) by {
            assert(!text_less(s[j], s[i]));
        }
        lemma_inserted(init, t);
        let v = text_inserted(init, t);
        assert(s =~= init.push(last));
        assert(u.to_multiset() =~= s.to_multiset().insert(t));
        assert forall|i: int| 0 <= i < u.len() implies s.contains(#[trigger] u[i]) || u[i]
            == t by {
            if i < v.len() {
                assert(u[i] == v[i]);
                if init.contains(v[i]) {
                    let k = choose|k: int| 0 <= k < init.len() && init[k] == v[i];
                    assert(s[k] == u[i]);
                }
            } else {
                assert(s[s.len() - 1] == u[i]);
            }
        }
        assert forall|i: int, j: int| 0 <= i < j < u.len() implies !text_less(
            #[trigger] u[j],
            #[trigger] u[i],
        ) by {
            if j < v.len() {
                assert(!text_less(v[j], v[i]));
            } else {
                assert(init.contains(v[i]) || v[i] == t);
                if v[i] == t {
                    if text_less(last, t) {
                        lemma_text_less_transitive(t, last, t);
                        lemma_text_less_irreflexive(t);
                    }
                } else {
                    let k = choose|k: int| 0 <= k < init.len() && init[k] == v[i];
                    assert(!text_less(s[s.len() - 1], s[k]));
                }
            }
        }
    }
}

proof fn lemma_sorted(s: Seq<Seq<char>>)
    ensures
        weakly_sorted(texts_sorted(s)),
        texts_sorted(s).to_multiset() == s.to_multiset(),
    decreases s.len(),
{
    broadcast use vstd::seq_lib::group_to_multiset_ensures;

    if s.len() > 0 {
        lemma_sorted(s.drop_last());
        lemma_inserted(texts_sorted(s.drop_last()), s.last());
        assert(s =~= s.drop_last().push(s.last()));
    }
}

proof fn lemma_sorted_unique(s: Seq<Seq<char>>, t: Seq<Seq<char>>)
    requires
        weakly_sorted(s),
        weakly_sorted(t),
        s.to_multiset() == t.to_multiset(),
    ensures
        s == t,
    decreases s.len(),
{
    broadcast use vstd::seq_lib::group_to_multiset_ensures;

    assert(s.len() == s.to_multiset().len());
    assert(t.len() == t.to_multiset().len());
    if s.len() == 0 {
        assert(s =~= t);
    } else {
        let a = s.last();
        let b = t.last();
        assert(s.to_multiset().contains(a)) by {
            assert(s.contains(s[s.len() - 1]));
        }
        assert(t.to_multiset().contains(b)) by {
            assert(t.contains(t[t.len() - 1]));
        }
        assert(t.contains(a));
        assert(s.contains(b));
        let i = choose|i: int| 0 <= i < t.len() && t[i] == a;
        let j = choose|j: int| 0 <= j < s.len() && s[j] == b;
        if a != b {
            assert(!text_less(t[t.len() - 1], t[i]));
            assert(!text_less(s[s.len() - 1], s[j]));
            lemma_text_less_total(a, b);
        }
        let s1 = s.drop_last();
        let t1 = t.drop_last();
        assert(s =~= s1.push(a));
        assert(t =~= t1.push(b));
        assert(s1.to_multiset() =~= s.to_multiset().remove(a));
        assert(t1.to_multiset() =~= t.to_multiset().remove(b));
        assert forall|x: int, y: int| 0 <= x < y < s1.len() implies !text_less(
            #[trigger] s1[y],
            #[trigger] s1[x],
        ) by {
            assert(!text_less(s[y], s[x]));
        }
        assert forall|x: int, y: int| 0 <= x < y < t1.len() implies !text_less(
            #[trigger] t1[y],
            #[trigger] t1[x],
        ) by {
            assert(!text_less(t[y], t[x]));
        }
        lemma_sorted_unique(s1, t1);
    }
}

/// The key of a set of conditions does not depend on the order in which they are
/// listed.
pub proof fn law_key_ignores_order(
    a: Seq<(Seq<char>, ConditionView)>,
    b: Seq<(Seq<char>, ConditionView)>,
)
    requires
        key_entries(a).to_multiset() == key_entries(b).to_multiset(),
    ensures
        key_of(a) == key_of(b),
{
    lemma_sorted(key_entries(a));
    lemma_sorted(key_entries(b));
    lemma_sorted_unique(texts_sorted(key_entries(a)), texts_sorted(key_entries(b)));
}

}
