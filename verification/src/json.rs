//! JSON values: the data that rooms, listings, messages and snapshots hold.

use crate::text::{
    insert_sorted, lemma_sorted_texts, same_text, sorted_texts, strictly_sorted, text_views,
};
use vstd::prelude::*;

verus! {

/// `bits` are those of a finite IEEE 754 double: its exponent is not the one of
/// the infinities.
pub open spec fn finite_bits(bits: u64) -> bool {
    (bits as int / 0x10_0000_0000_0000) % 0x800 != 0x7ff
}

/// A finite double, held by its bits.
#[derive(Clone, Copy, Debug)]
pub struct Double {
    bits: u64,
}

impl Double {
    #[verifier::type_invariant]
    spec fn inv(self) -> bool {
        finite_bits(self.bits)
    }

    pub closed spec fn bits(self) -> u64 {
        self.bits
    }

    /// The double with these bits, if it is finite.
    pub fn from_bits(bits: u64) -> (r: Option<Double>)
        ensures
            r is Some <==> finite_bits(bits),
            r matches Some(d) ==> d.bits() == bits,
    {
        if (bits / 0x10_0000_0000_0000) % 0x800 != 0x7ff {
            Some(Double { bits })
        } else {
            None
        }
    }

    pub fn to_bits(&self) -> (r: u64)
        ensures
            r == self.bits(),
            finite_bits(r),
    {
        proof {
            use_type_invariant(self);
        }
        self.bits
    }
}

/// A JSON value. `Uint` and `Int` hold whole numbers. Where an object names a
/// key twice, the later entry is the one that counts.
#[derive(Debug)]
pub enum Json {
    Null,
    Bool(bool),
    Uint(u64),
    Int(i64),
    Float(Double),
    Str(String),
    Array(Vec<Json>),
    Object(Vec<(String, Json)>),
}

/// What a JSON value stands for.
pub enum JsonView {
    Null,
    Bool(bool),
    Int(int),
    Float(u64),
    Str(Seq<char>),
    Array(Seq<JsonView>),
    Object(Map<Seq<char>, JsonView>),
}

/// What `j` stands for.
pub open spec fn json_view(j: Json) -> JsonView
    decreases j,
{
    match j {
        Json::Null => JsonView::Null,
        Json::Bool(b) => JsonView::Bool(b),
        Json::Uint(n) => JsonView::Int(n as int),
        Json::Int(n) => JsonView::Int(n as int),
        Json::Float(d) => JsonView::Float(d.bits()),
        Json::Str(s) => JsonView::Str(s@),
        Json::Array(v) => JsonView::Array(
            Seq::new(
                v@.len(),
                |i: int|
                    if 0 <= i < v@.len() {
                        json_view(v@[i])
                    } else {
                        JsonView::Null
                    },
            ),
        ),
        Json::Object(es) => JsonView::Object(entries_view(es@)),
    }
}

/// The map that a list of entries stands for.
pub open spec fn entries_view(es: Seq<(String, Json)>) -> Map<Seq<char>, JsonView>
    decreases es,
{
    if es.len() == 0 {
        Map::empty()
    } else {
        entries_view(es.drop_last()).insert(es.last().0@, json_view(es.last().1))
    }
}

/// What each value of a sequence stands for.
pub open spec fn values_view(v: Seq<Json>) -> Seq<JsonView> {
    Seq::new(v.len(), |i: int| json_view(v[i]))
}

impl View for Json {
    type V = JsonView;

    open spec fn view(&self) -> JsonView {
        json_view(*self)
    }
}

/// `v` with every negative zero in it replaced by zero.
pub open spec fn norm(v: JsonView) -> JsonView
    decreases v,
{
    match v {
        JsonView::Float(b) => JsonView::Float(
            if b == 0x8000_0000_0000_0000u64 {
                0
            } else {
                b
            },
        ),
        JsonView::Array(s) => JsonView::Array(
            Seq::new(
                s.len(),
                |i: int|
                    if 0 <= i < s.len() {
                        norm(s[i])
                    } else {
                        JsonView::Null
                    },
            ),
        ),
        JsonView::Object(m) => JsonView::Object(
            Map::new(
                |k: Seq<char>| m.dom().contains(k),
                |k: Seq<char>|
                    if m.dom().contains(k) {
                        norm(m[k])
                    } else {
                        JsonView::Null
                    },
            ),
        ),
        _ => v,
    }
}

/// Equality of JSON values: whole numbers, texts, arrays and objects are equal
/// as such, doubles as numbers, so that zero equals negative zero. A whole
/// number never equals a double.
pub open spec fn same(a: JsonView, b: JsonView) -> bool {
    norm(a) == norm(b)
}

/// Every object in `v` has finitely many keys.
pub open spec fn finite_view(v: JsonView) -> bool
    decreases v,
{
    match v {
        JsonView::Array(s) => forall|i: int| 0 <= i < s.len() ==> finite_view(#[trigger] s[i]),
        JsonView::Object(m) => m.dom().finite() && forall|k: Seq<char>| #[trigger]
            m.dom().contains(k) ==> finite_view(m[k]),
        _ => true,
    }
}

/// Two arrays are equal when they are as long and equal item by item.
pub proof fn lemma_same_arrays(a: Seq<JsonView>, b: Seq<JsonView>)
    ensures
        same(JsonView::Array(a), JsonView::Array(b)) <==> a.len() == b.len() && forall|i: int|
            0 <= i < a.len() ==> same(#[trigger] a[i], b[i]),
{
    let x = norm(JsonView::Array(a))->Array_0;
    let y = norm(JsonView::Array(b))->Array_0;
    if same(JsonView::Array(a), JsonView::Array(b)) {
        assert(x == y);
        assert(a.len() == x.len());
        assert(b.len() == y.len());
        assert forall|i: int| 0 <= i < a.len() implies same(#[trigger] a[i], b[i]) by {
            assert(x[i] == norm(a[i]));
            assert(y[i] == norm(b[i]));
        }
    }
    if a.len() == b.len() && forall|i: int| 0 <= i < a.len() ==> same(#[trigger] a[i], b[i]) {
        assert forall|i: int| 0 <= i < x.len() implies x[i] == y[i] by {
            assert(same(a[i], b[i]));
        }
        assert(x =~= y);
    }
}

/// Two objects are equal when they have the same keys and equal values.
pub proof fn lemma_same_objects(a: Map<Seq<char>, JsonView>, b: Map<Seq<char>, JsonView>)
    ensures
        same(JsonView::Object(a), JsonView::Object(b)) <==> a.dom() == b.dom() && forall|
            k: Seq<char>,
        |
            #![trigger a[k]]
            #![trigger b[k]]
            a.dom().contains(k) ==> same(a[k], b[k]),
{
    let x = norm(JsonView::Object(a))->Object_0;
    let y = norm(JsonView::Object(b))->Object_0;
    assert(x.dom() =~= a.dom());
    assert(y.dom() =~= b.dom());
    if same(JsonView::Object(a), JsonView::Object(b)) {
        assert(x == y);
        assert forall|k: Seq<char>| a.dom().contains(k) implies same(
            #[trigger] a[k],
            #[trigger] b[k],
        ) by {
            assert(x[k] == norm(a[k]));
            assert(y[k] == norm(b[k]));
        }
    }
    if a.dom() == b.dom() && forall|k: Seq<char>|
        #![trigger a[k]]
        #![trigger b[k]]
        a.dom().contains(k) ==> same(a[k], b[k]) {
        assert forall|k: Seq<char>| x.dom().contains(k) implies x[k] == y[k] by {
            assert(same(a[k], b[k]));
            assert(x[k] == norm(a[k]));
            assert(y[k] == norm(b[k]));
        }
        assert(x =~= y);
    }
}

/// `i` is the place of the entry that counts for `key`.
pub open spec fn is_place_of(es: Seq<(String, Json)>, key: Seq<char>, i: int) -> bool {
    &&& 0 <= i < es.len()
    &&& es[i].0@ == key
    &&& forall|k: int| i < k < es.len() ==> (#[trigger] es[k]).0@ != key
}

/// The entry that counts for a key gives its value; a key with no entry is not
/// in the map.
pub proof fn lemma_entries_view(es: Seq<(String, Json)>, key: Seq<char>)
    ensures
        forall|i: int| #[trigger]
            is_place_of(es, key, i) ==> entries_view(es).dom().contains(key) && entries_view(es)[key]
                == json_view(es[i].1),
        entries_view(es).dom().contains(key) <==> exists|i: int|
            0 <= i < es.len() && (#[trigger] es[i]).0@ == key,
        entries_view(es).dom().finite(),
    decreases es.len(),
{
    if es.len() > 0 {
        let init = es.drop_last();
        lemma_entries_view(init, key);
        let m = entries_view(init);
        assert(entries_view(es) == m.insert(es.last().0@, json_view(es.last().1)));
        assert forall|i: int| #[trigger] is_place_of(es, key, i) implies entries_view(
            es,
        ).dom().contains(key) && entries_view(es)[key] == json_view(es[i].1) by {
            if i < es.len() - 1 {
                assert(es[es.len() - 1].0@ != key);
                assert forall|k: int| i < k < init.len() implies (#[trigger] init[k]).0@ != key by {
                    assert(es[k].0@ != key);
                }
                assert(is_place_of(init, key, i));
            }
        }
        if entries_view(es).dom().contains(key) {
            if es.last().0@ == key {
                assert(es[es.len() - 1].0@ == key);
            } else {
                let i = choose|i: int| 0 <= i < init.len() && (#[trigger] init[i]).0@ == key;
                assert(es[i].0@ == key);
            }
        }
        if exists|i: int| 0 <= i < es.len() && (#[trigger] es[i]).0@ == key {
            let i = choose|i: int| 0 <= i < es.len() && (#[trigger] es[i]).0@ == key;
            if i < es.len() - 1 {
                assert(init[i].0@ == key);
            }
        }
    }
}

/// Appending an entry sets its key.
pub proof fn lemma_entries_push(es: Seq<(String, Json)>, e: (String, Json))
    ensures
        entries_view(es.push(e)) == entries_view(es).insert(e.0@, json_view(e.1)),
{
    assert(es.push(e).drop_last() =~= es);
}

/// Entries with the same keys and values stand for the same map.
pub proof fn lemma_entries_congruent(a: Seq<(String, Json)>, b: Seq<(String, Json)>)
    requires
        a.len() == b.len(),
        forall|i: int|
            0 <= i < a.len() ==> (#[trigger] a[i]).0@ == b[i].0@ && json_view(a[i].1) == json_view(
                b[i].1,
            ),
    ensures
        entries_view(a) == entries_view(b),
    decreases a.len(),
{
    if a.len() > 0 {
        assert forall|i: int| 0 <= i < a.len() - 1 implies (#[trigger] a.drop_last()[i]).0@
            == b.drop_last()[i].0@ && json_view(a.drop_last()[i].1) == json_view(
            b.drop_last()[i].1,
        ) by {
            assert(a[i].0@ == b[i].0@);
        }
        lemma_entries_congruent(a.drop_last(), b.drop_last());
        assert(a[a.len() - 1].0@ == b[a.len() - 1].0@);
    }
}

/// Replacing the value of the entry that counts for a key sets that key.
pub proof fn lemma_entries_update(es: Seq<(String, Json)>, i: int, e: (String, Json))
    requires
        is_place_of(es, e.0@, i),
    ensures
        entries_view(es.update(i, e)) == entries_view(es).insert(e.0@, json_view(e.1)),
    decreases es.len(),
{
    let up = es.update(i, e);
    if i == es.len() - 1 {
        assert(up.drop_last() =~= es.drop_last());
        assert(entries_view(up) =~= entries_view(es).insert(e.0@, json_view(e.1)));
    } else {
        let init = es.drop_last();
        assert(es[es.len() - 1].0@ != e.0@);
        assert forall|k: int| i < k < init.len() implies (#[trigger] init[k]).0@ != e.0@ by {
            assert(es[k].0@ != e.0@);
        }
        lemma_entries_update(init, i, e);
        assert(up.drop_last() =~= init.update(i, e));
        assert(entries_view(up) =~= entries_view(es).insert(e.0@, json_view(e.1)));
    }
}

/// What a value stands for has finitely many keys in every object.
pub proof fn lemma_finite_view(j: Json)
    ensures
        finite_view(j@),
    decreases j,
{
    match j {
        Json::Array(v) => {
            assert forall|i: int| 0 <= i < v@.len() implies finite_view(
                #[trigger] (j@->Array_0)[i],
            ) by {
                lemma_finite_view(v@[i]);
            }
        },
        Json::Object(es) => {
            lemma_finite_entries(es@);
        },
        _ => {},
    }
}

proof fn lemma_finite_entries(es: Seq<(String, Json)>)
    ensures
        entries_view(es).dom().finite(),
        forall|k: Seq<char>| #[trigger]
            entries_view(es).dom().contains(k) ==> finite_view(entries_view(es)[k]),
    decreases es,
{
    if es.len() > 0 {
        lemma_finite_entries(es.drop_last());
        lemma_finite_view(es.last().1);
    }
}

/// The place of the entry that counts for `key`.
pub fn place_of(es: &Vec<(String, Json)>, key: &str) -> (r: Option<usize>)
    ensures
        r is Some <==> entries_view(es@).dom().contains(key@),
        r matches Some(i) ==> is_place_of(es@, key@, i as int) && entries_view(es@)[key@]
            == es@[i as int].1@,
{
    let mut i: usize = es.len();
    while i > 0
        invariant
            i <= es.len(),
            forall|k: int| i <= k < es.len() ==> (#[trigger] es@[k]).0@ != key@,
        decreases i,
    {
        i = i - 1;
        if same_text(es[i].0.as_str(), key) {
            proof {
                lemma_entries_view(es@, key@);
                assert(is_place_of(es@, key@, i as int));
            }
            return Some(i);
        }
    }
    proof {
        lemma_entries_view(es@, key@);
    }
    None
}

/// The value that the entries hold under `key`.
pub fn lookup<'a>(es: &'a Vec<(String, Json)>, key: &str) -> (r: Option<&'a Json>)
    ensures
        r is Some <==> entries_view(es@).dom().contains(key@),
        r matches Some(v) ==> v@ == entries_view(es@)[key@],
{
    match place_of(es, key) {
        Some(i) => Some(&es[i].1),
        None => None,
    }
}

/// Adds a field to an object.
pub fn put_field(es: &mut Vec<(String, Json)>, key: &str, value: Json)
    ensures
        entries_view(final(es)@) == entries_view(old(es)@).insert(key@, value@),
{
    let e: (String, Json) = (key.to_owned(), value);
    proof {
        lemma_entries_push(es@, e);
    }
    es.push(e);
}

/// Sets `key` to `value`, in place where the key is there.
pub fn set_entry(es: &mut Vec<(String, Json)>, key: &str, value: Json)
    ensures
        entries_view(final(es)@) == entries_view(old(es)@).insert(key@, value@),
{
    match place_of(es, key) {
        Some(i) => {
            let e: (String, Json) = (key.to_owned(), value);
            proof {
                lemma_entries_update(es@, i as int, e);
            }
            es.set(i, e);
        },
        None => {
            let e: (String, Json) = (key.to_owned(), value);
            proof {
                lemma_entries_push(es@, e);
            }
            es.push(e);
        },
    }
}

/// Takes `key` out. The other keys keep their values.
pub fn remove_entry(es: &mut Vec<(String, Json)>, key: &str)
    ensures
        entries_view(final(es)@) == entries_view(old(es)@).remove(key@),
{
    let mut kept: Vec<(String, Json)> = Vec::new();
    let mut i: usize = 0;
    while i < es.len()
        invariant
            es@ == old(es)@,
            i <= es.len(),
            entries_view(kept@) == entries_view(es@.take(i as int)).remove(key@),
        decreases es.len() - i,
    {
        proof {
            assert(es@.take(i + 1) =~= es@.take(i as int).push(es@[i as int]));
            lemma_entries_push(es@.take(i as int), es@[i as int]);
        }
        if !same_text(es[i].0.as_str(), key) {
            let e: (String, Json) = (es[i].0.clone(), es[i].1.clone());
            proof {
                lemma_entries_push(kept@, e);
            }
            kept.push(e);
            proof {
                assert(entries_view(kept@) =~= entries_view(es@.take(i + 1)).remove(key@));
            }
        } else {
            proof {
                assert(entries_view(kept@) =~= entries_view(es@.take(i + 1)).remove(key@));
            }
        }
        i = i + 1;
    }
    proof {
        assert(es@.take(es@.len() as int) =~= es@);
    }
    *es = kept;
}

/// The keys in order, each once.
pub fn sorted_keys(es: &Vec<(String, Json)>) -> (r: Vec<String>)
    ensures
        text_views(r@) == sorted_texts(entries_view(es@).dom()),
        strictly_sorted(text_views(r@)),
        text_views(r@).to_set() == entries_view(es@).dom(),
{
    let mut r: Vec<String> = Vec::new();
    let mut i: usize = 0;
    proof {
        assert(text_views(r@).to_set() =~= entries_view(es@.take(0)).dom());
    }
    while i < es.len()
        invariant
            i <= es.len(),
            strictly_sorted(text_views(r@)),
            text_views(r@).to_set() == entries_view(es@.take(i as int)).dom(),
        decreases es.len() - i,
    {
        proof {
            assert(es@.take(i + 1) =~= es@.take(i as int).push(es@[i as int]));
            lemma_entries_push(es@.take(i as int), es@[i as int]);
            assert(entries_view(es@.take(i + 1)).dom() =~= entries_view(
                es@.take(i as int),
            ).dom().insert(es@[i as int].0@));
        }
        insert_sorted(&mut r, es[i].0.as_str());
        i = i + 1;
    }
    proof {
        assert(es@.take(es@.len() as int) =~= es@);
        lemma_sorted_texts(text_views(r@));
    }
    r
}

/// Copies of the values, in order.
pub fn clone_values(v: &Vec<Json>) -> (r: Vec<Json>)
    ensures
        values_view(r@) == values_view(v@),
    decreases v,
{
    let mut r: Vec<Json> = Vec::new();
    let mut i: usize = 0;
    while i < v.len()
        invariant
            i <= v.len(),
            r.len() == i,
            forall|k: int| 0 <= k < i ==> json_view(#[trigger] r@[k]) == json_view(v@[k]),
        decreases v.len() - i,
    {
        r.push(v[i].copy());
        i = i + 1;
    }
    proof {
        assert(values_view(r@) =~= values_view(v@));
    }
    r
}

/// Copies of the entries, in order.
pub fn clone_entries(es: &Vec<(String, Json)>) -> (r: Vec<(String, Json)>)
    ensures
        entries_view(r@) == entries_view(es@),
    decreases es,
{
    let mut r: Vec<(String, Json)> = Vec::new();
    let mut i: usize = 0;
    while i < es.len()
        invariant
            i <= es.len(),
            r.len() == i,
            forall|k: int|
                0 <= k < i ==> (#[trigger] r@[k]).0@ == es@[k].0@ && json_view(r@[k].1)
                    == json_view(es@[k].1),
        decreases es.len() - i,
    {
        r.push((es[i].0.clone(), es[i].1.copy()));
        i = i + 1;
    }
    proof {
        lemma_entries_congruent(r@, es@);
    }
    r
}

impl Json {
    /// The array of these values.
    pub fn array(items: Vec<Json>) -> (r: Json)
        ensures
            r@ == JsonView::Array(values_view(items@)),
            r == Json::Array(items),
    {
        proof {
            assert(Json::Array(items)@->Array_0 =~= values_view(items@));
        }
        Json::Array(items)
    }

    /// A value that stands for the same as this one.
    pub fn copy(&self) -> (r: Json)
        ensures
            r@ == self@,
        decreases self,
    {
        match self {
            Json::Null => Json::Null,
            Json::Bool(b) => Json::Bool(*b),
            Json::Uint(n) => Json::Uint(*n),
            Json::Int(n) => Json::Int(*n),
            Json::Float(d) => Json::Float(*d),
            Json::Str(s) => Json::Str(s.clone()),
            Json::Array(v) => {
                let w: Vec<Json> = clone_values(v);
                proof {
                    assert(Json::Array(w)@->Array_0 =~= values_view(w@));
                    assert(self@->Array_0 =~= values_view(v@));
                }
                Json::Array(w)
            },
            Json::Object(es) => Json::Object(clone_entries(es)),
        }
    }

    /// Whether two values are equal.
    pub fn same_as(&self, other: &Json) -> (r: bool)
        ensures
            r == same(self@, other@),
        decreases self,
    {
        match (self, other) {
            (Json::Null, Json::Null) => true,
            (Json::Bool(a), Json::Bool(b)) => *a == *b,
            (Json::Uint(a), Json::Uint(b)) => *a == *b,
            (Json::Int(a), Json::Int(b)) => *a == *b,
            (Json::Uint(a), Json::Int(b)) => *b >= 0 && *a == *b as u64,
            (Json::Int(a), Json::Uint(b)) => *a >= 0 && *a as u64 == *b,
            (Json::Float(a), Json::Float(b)) => {
                let x: u64 = a.to_bits();
                let y: u64 = b.to_bits();
                x == y || (x == 0 && y == 0x8000_0000_0000_0000) || (x == 0x8000_0000_0000_0000 && y
                    == 0)
            },
            (Json::Str(a), Json::Str(b)) => *a == *b,
            (Json::Array(a), Json::Array(b)) => {
                proof {
                    lemma_same_arrays(self@->Array_0, other@->Array_0);
                }
                if a.len() != b.len() {
                    return false;
                }
                let mut i: usize = 0;
                while i < a.len()
                    invariant
                        i <= a.len(),
                        a.len() == b.len(),
                        self@ is Array,
                        other@ is Array,
                        *self == Json::Array(*a),
                        *other == Json::Array(*b),
                        forall|k: int|
                            0 <= k < i ==> same(#[trigger] (self@->Array_0)[k], (other@->Array_0)[k]),
                        same(self@, other@) <==> forall|k: int|
                            0 <= k < (self@->Array_0).len() ==> same(
                                #[trigger] (self@->Array_0)[k],
                                (other@->Array_0)[k],
                            ),
                    decreases a.len() - i,
                {
                    if !a[i].same_as(&b[i]) {
                        proof {
                            assert(!same((self@->Array_0)[i as int], (other@->Array_0)[i as int]));
                        }
                        return false;
                    }
                    i = i + 1;
                }
                true
            },
            (Json::Object(a), Json::Object(b)) => {
                let ghost m = entries_view(a@);
                let ghost n = entries_view(b@);
                proof {
                    lemma_same_objects(m, n);
                }
                let mut i: usize = 0;
                while i < a.len()
                    invariant
                        i <= a.len(),
                        *self == Json::Object(*a),
                        m == entries_view(a@),
                        n == entries_view(b@),
                        self@ == JsonView::Object(m),
                        other@ == JsonView::Object(n),
                        same(self@, other@) <==> m.dom() == n.dom() && forall|k: Seq<char>|
                            #![trigger m[k]]
                            #![trigger n[k]]
                            m.dom().contains(k) ==> same(m[k], n[k]),
                        forall|k: int|
                            0 <= k < i ==> n.dom().contains((#[trigger] a@[k]).0@) && same(
                                m[a@[k].0@],
                                n[a@[k].0@],
                            ),
                    decreases a.len() - i,
                {
                    let key: &str = a[i].0.as_str();
                    proof {
                        lemma_entries_view(a@, key@);
                    }
                    match (place_of(a, key), place_of(b, key)) {
                        (Some(x), Some(y)) => {
                            if !a[x].1.same_as(&b[y].1) {
                                proof {
                                    assert(!same(m[key@], n[key@]));
                                }
                                return false;
                            }
                        },
                        _ => {
                            return false;
                        },
                    }
                    i = i + 1;
                }
                let mut j: usize = 0;
                while j < b.len()
                    invariant
                        j <= b.len(),
                        m == entries_view(a@),
                        n == entries_view(b@),
                        self@ == JsonView::Object(m),
                        other@ == JsonView::Object(n),
                        same(self@, other@) <==> m.dom() == n.dom() && forall|k: Seq<char>|
                            #![trigger m[k]]
                            #![trigger n[k]]
                            m.dom().contains(k) ==> same(m[k], n[k]),
                        forall|k: int| 0 <= k < j ==> m.dom().contains((#[trigger] b@[k]).0@),
                    decreases b.len() - j,
                {
                    let key: &str = b[j].0.as_str();
                    proof {
                        lemma_entries_view(b@, key@);
                    }
                    if place_of(a, key).is_none() {
                        return false;
                    }
                    j = j + 1;
                }
                proof {
                    assert forall|k: Seq<char>| m.dom().contains(k) == n.dom().contains(k) by {
                        lemma_entries_view(a@, k);
                        lemma_entries_view(b@, k);
                    }
                    assert(m.dom() =~= n.dom());
                    assert forall|k: Seq<char>| m.dom().contains(k) implies same(
                        #[trigger] m[k],
                        #[trigger] n[k],
                    ) by {
                        lemma_entries_view(a@, k);
                    }
                }
                true
            },
            _ => false,
        }
    }
}

impl Clone for Json {
    fn clone(&self) -> (r: Self)
        ensures
            r@ == self@,
    {
        self.copy()
    }
}

impl PartialEq for Json {
    fn eq(&self, other: &Self) -> (r: bool) {
        self.same_as(other)
    }
}

impl vstd::std_specs::cmp::PartialEqSpecImpl for Json {
    open spec fn obeys_eq_spec() -> bool {
        true
    }

    open spec fn eq_spec(&self, other: &Self) -> bool {
        same(self@, other@)
    }
}

}
