//! JSON-Patch (RFC 6902) diff generation, tuned for game state.
//!
//! - arrays of the same length that mostly line up are compared place by
//!   place, which gives small, precise patches for arrays of entities;
//! - arrays that shifted, grew or shrank are compared along a longest common
//!   subsequence, so that a queue that moves on by one costs two operations;
//! - huge arrays are compared place by place, which bounds the work.

use crate::json::{
    entries_view, lemma_entries_push, lookup, place_of, same, sorted_keys, values_view, Json,
    JsonView,
};
use crate::pointer::{child_path, escaped, pointer_text, pointer_tokens, token_index};
use crate::text::{decimal, decimal_text, sorted_texts, text_views};
use vstd::prelude::*;

verus! {

/// The largest table, in cells, that a longest common subsequence is looked
/// for with.
pub const LCS_MAX_CELLS: u64 = 8192;

/// What an edit does to the place that it names.
pub enum EditKind {
    Add,
    Remove,
    Replace,
}

/// One step of a patch: what is done, where, and with which value.
pub struct Edit {
    pub kind: EditKind,
    pub at: Seq<Seq<char>>,
    pub value: Option<JsonView>,
}

// ---------------------------------------------------------------------
// applying edits
// ---------------------------------------------------------------------

/// `doc` after one edit, or `None` where the edit names no place in it.
pub open spec fn apply_edit(doc: JsonView, e: Edit) -> Option<JsonView>
    decreases e.at.len(),
{
    if e.at.len() == 0 {
        match e.kind {
            EditKind::Remove => None,
            _ => e.value,
        }
    } else {
        let below = Edit { at: e.at.drop_first(), ..e };
        match doc {
            JsonView::Object(m) => {
                let k = e.at[0];
                if e.at.len() > 1 {
                    if m.dom().contains(k) {
                        match apply_edit(m[k], below) {
                            Some(v) => Some(JsonView::Object(m.insert(k, v))),
                            None => None,
                        }
                    } else {
                        None
                    }
                } else {
                    match e.kind {
                        EditKind::Add => match e.value {
                            Some(v) => Some(JsonView::Object(m.insert(k, v))),
                            None => None,
                        },
                        EditKind::Replace => match e.value {
                            Some(v) => if m.dom().contains(k) {
                                Some(JsonView::Object(m.insert(k, v)))
                            } else {
                                None
                            },
                            None => None,
                        },
                        EditKind::Remove => if m.dom().contains(k) {
                            Some(JsonView::Object(m.remove(k)))
                        } else {
                            None
                        },
                    }
                }
            },
            JsonView::Array(s) => match token_index(e.at[0]) {
                None => None,
                Some(i) => if e.at.len() > 1 {
                    if i < s.len() {
                        match apply_edit(s[i as int], below) {
                            Some(v) => Some(JsonView::Array(s.update(i as int, v))),
                            None => None,
                        }
                    } else {
                        None
                    }
                } else {
                    match e.kind {
                        EditKind::Add => match e.value {
                            Some(v) => if i <= s.len() {
                                Some(JsonView::Array(s.insert(i as int, v)))
                            } else {
                                None
                            },
                            None => None,
                        },
                        EditKind::Replace => match e.value {
                            Some(v) => if i < s.len() {
                                Some(JsonView::Array(s.update(i as int, v)))
                            } else {
                                None
                            },
                            None => None,
                        },
                        EditKind::Remove => if i < s.len() {
                            Some(JsonView::Array(s.remove(i as int)))
                        } else {
                            None
                        },
                    }
                },
            },
            _ => None,
        }
    }
}

/// `doc` after the edits, one after the other.
pub open spec fn apply_edits(doc: JsonView, es: Seq<Edit>) -> Option<JsonView>
    decreases es.len(),
{
    if es.len() == 0 {
        Some(doc)
    } else {
        match apply_edit(doc, es[0]) {
            Some(d) => apply_edits(d, es.drop_first()),
            None => None,
        }
    }
}

/// The edit that a JSON-Patch operation asks for.
pub open spec fn read_op(op: JsonView) -> Option<Edit> {
    match op {
        JsonView::Object(m) => {
            let value = if m.dom().contains("value"@) {
                Some(m["value"@])
            } else {
                None
            };
            if m.dom().contains("op"@) && m.dom().contains("path"@) {
                match m["path"@] {
                    JsonView::Str(p) => match pointer_tokens(p) {
                        Some(at) => if m["op"@] == JsonView::Str("add"@) {
                            Some(Edit { kind: EditKind::Add, at, value })
                        } else if m["op"@] == JsonView::Str("replace"@) {
                            Some(Edit { kind: EditKind::Replace, at, value })
                        } else if m["op"@] == JsonView::Str("remove"@) {
                            Some(Edit { kind: EditKind::Remove, at, value: None })
                        } else {
                            None
                        },
                        None => None,
                    },
                    _ => None,
                }
            } else {
                None
            }
        },
        _ => None,
    }
}

/// `doc` after the JSON-Patch operations, one after the other.
pub open spec fn apply_patch(doc: JsonView, ops: Seq<JsonView>) -> Option<JsonView>
    decreases ops.len(),
{
    if ops.len() == 0 {
        Some(doc)
    } else {
        match read_op(ops[0]) {
            Some(e) => match apply_edit(doc, e) {
                Some(d) => apply_patch(d, ops.drop_first()),
                None => None,
            },
            None => None,
        }
    }
}

// ---------------------------------------------------------------------
// the edits of a diff
// ---------------------------------------------------------------------

/// The name of an operation.
pub open spec fn kind_name(k: EditKind) -> Seq<char> {
    match k {
        EditKind::Add => "add"@,
        EditKind::Remove => "remove"@,
        EditKind::Replace => "replace"@,
    }
}

/// The JSON-Patch operation for an edit of the part of a document at `path`.
pub open spec fn op_view(path: Seq<char>, e: Edit) -> JsonView {
    let base = Map::<Seq<char>, JsonView>::empty().insert(
        "op"@,
        JsonView::Str(kind_name(e.kind)),
    ).insert("path"@, JsonView::Str(pointer_text(path, e.at)));
    match e.value {
        Some(v) => JsonView::Object(base.insert("value"@, v)),
        None => JsonView::Object(base),
    }
}

/// The JSON-Patch operations for edits of the part of a document at `path`.
pub open spec fn ops_view(path: Seq<char>, es: Seq<Edit>) -> Seq<JsonView> {
    es.map_values(|e: Edit| op_view(path, e))
}

/// The edits of a part, as edits of what holds it under `token`.
pub open spec fn under(token: Seq<char>, es: Seq<Edit>) -> Seq<Edit> {
    es.map_values(|e: Edit| Edit { at: seq![token] + e.at, ..e })
}

pub open spec fn remove_at(token: Seq<char>) -> Edit {
    Edit { kind: EditKind::Remove, at: seq![token], value: None }
}

pub open spec fn add_at(token: Seq<char>, v: JsonView) -> Edit {
    Edit { kind: EditKind::Add, at: seq![token], value: Some(v) }
}

/// How many places hold equal items.
pub open spec fn aligned(a: Seq<JsonView>, b: Seq<JsonView>, n: nat) -> nat
    decreases n,
{
    if n == 0 {
        0
    } else {
        aligned(a, b, (n - 1) as nat) + if same(a[n - 1], b[n - 1]) {
            1nat
        } else {
            0nat
        }
    }
}

/// Whether two arrays are compared place by place: they are as long and at
/// least half of their places agree or they are short, or the table of a common
/// subsequence would be too large.
pub open spec fn by_place(a: Seq<JsonView>, b: Seq<JsonView>) -> bool {
    ||| a.len() == b.len() && (2 * aligned(a, b, a.len()) >= a.len() || a.len() <= 8)
    ||| a.len() * b.len() > LCS_MAX_CELLS
}

/// The length of a longest common subsequence of `a` from `i` and `b` from `j`.
pub open spec fn lcs(a: Seq<JsonView>, b: Seq<JsonView>, i: nat, j: nat) -> nat
    decreases (a.len() - i) + (b.len() - j),
{
    if i >= a.len() || j >= b.len() {
        0
    } else if same(a[i as int], b[j as int]) {
        lcs(a, b, i + 1, j + 1) + 1
    } else if lcs(a, b, i + 1, j) >= lcs(a, b, i, j + 1) {
        lcs(a, b, i + 1, j)
    } else {
        lcs(a, b, i, j + 1)
    }
}

/// The removals and additions that turn `a` from `i` into `b` from `j`, in an
/// array whose first `j` items are in place.
pub open spec fn script(a: Seq<JsonView>, b: Seq<JsonView>, i: nat, j: nat) -> Seq<Edit>
    decreases (a.len() - i) + (b.len() - j),
{
    if i > a.len() || j > b.len() {
        seq![]
    } else if i < a.len() && j < b.len() {
        if same(a[i as int], b[j as int]) {
            script(a, b, i + 1, j + 1)
        } else if lcs(a, b, i + 1, j) >= lcs(a, b, i, j + 1) {
            seq![remove_at(decimal(j))] + script(a, b, i + 1, j)
        } else {
            seq![add_at(decimal(j), b[j as int])] + script(a, b, i, j + 1)
        }
    } else if i < a.len() {
        seq![remove_at(decimal(j))] + script(a, b, i + 1, j)
    } else if j < b.len() {
        seq![add_at(decimal(j), b[j as int])] + script(a, b, i, j + 1)
    } else {
        seq![]
    }
}

/// The removals of the keys that `b` does not have.
pub open spec fn removals(ks: Seq<Seq<char>>, b: Map<Seq<char>, JsonView>) -> Seq<Edit>
    decreases ks.len(),
{
    if ks.len() == 0 {
        seq![]
    } else if b.dom().contains(ks.last()) {
        removals(ks.drop_last(), b)
    } else {
        removals(ks.drop_last(), b).push(remove_at(ks.last()))
    }
}

/// The edits that set the keys `ks` of the object `old` as they are in `new`.
pub open spec fn settings(old: JsonView, new: JsonView, ks: Seq<Seq<char>>) -> Seq<Edit>
    decreases old, 1nat, ks.len(),
{
    if ks.len() == 0 {
        seq![]
    } else {
        let k = ks.last();
        let a = old->Object_0;
        let b = new->Object_0;
        settings(old, new, ks.drop_last()) + if old is Object && a.dom().contains(k) {
            under(k, edits(a[k], b[k]))
        } else {
            seq![add_at(k, b[k])]
        }
    }
}

/// The edits of the first `n` items, place by place.
pub open spec fn place_edits(old: JsonView, new: JsonView, n: nat) -> Seq<Edit>
    decreases old, 1nat, n,
{
    let a = old->Array_0;
    let b = new->Array_0;
    if n == 0 || !(old is Array) || n > a.len() {
        seq![]
    } else {
        place_edits(old, new, (n - 1) as nat) + under(
            decimal((n - 1) as nat),
            edits(a[n - 1], b[n - 1]),
        )
    }
}

/// The edits that cut an array of `from` items down to `to` items.
pub open spec fn cut_edits(from: nat, to: nat) -> Seq<Edit> {
    Seq::new((from - to) as nat, |i: int| remove_at(decimal(to)))
}

/// The edits that append the items of `b` from `from`.
pub open spec fn append_edits(b: Seq<JsonView>, from: nat) -> Seq<Edit> {
    Seq::new((b.len() - from) as nat, |i: int| add_at(decimal((from + i) as nat), b[from + i]))
}

pub open spec fn overlap(a: Seq<JsonView>, b: Seq<JsonView>) -> nat {
    if a.len() <= b.len() {
        a.len()
    } else {
        b.len()
    }
}

/// The edits that turn `old` into `new`. Equal parts get none. Of two objects,
/// the keys that are gone are removed, in order, and then the keys of the new
/// one are set, in order. Of two arrays, see `by_place` and `script`. Anything
/// else is replaced.
pub open spec fn edits(old: JsonView, new: JsonView) -> Seq<Edit>
    decreases old, 2nat, 0nat,
{
    if same(old, new) {
        seq![]
    } else {
        match (old, new) {
            (JsonView::Object(a), JsonView::Object(b)) => removals(sorted_texts(a.dom()), b)
                + settings(old, new, sorted_texts(b.dom())),
            (JsonView::Array(a), JsonView::Array(b)) => if by_place(a, b) {
                let n = overlap(a, b);
                place_edits(old, new, n) + cut_edits(a.len(), n) + append_edits(b, n)
            } else {
                script(a, b, 0, 0)
            },
            _ => seq![Edit { kind: EditKind::Replace, at: seq![], value: Some(new) }],
        }
    }
}

// ---------------------------------------------------------------------
// writing the operations
// ---------------------------------------------------------------------

/// Operations at a child's path are the operations at the parent's path for the
/// edits under the child's token.
proof fn lemma_ops_under(path: Seq<char>, token: Seq<char>, es: Seq<Edit>)
    ensures
        ops_view(path + seq!['/'] + escaped(token), es) == ops_view(path, under(token, es)),
{
    let child = path + seq!['/'] + escaped(token);
    assert forall|i: int| 0 <= i < es.len() implies op_view(child, es[i]) == op_view(
        path,
        Edit { at: seq![token] + es[i].at, ..es[i] },
    ) by {
        assert((seq![token] + es[i].at).drop_first() =~= es[i].at);
    }
    assert(ops_view(child, es) =~= ops_view(path, under(token, es)));
}

proof fn lemma_ops_concat(path: Seq<char>, x: Seq<Edit>, y: Seq<Edit>)
    ensures
        ops_view(path, x + y) == ops_view(path, x) + ops_view(path, y),
{
    assert(ops_view(path, x + y) =~= ops_view(path, x) + ops_view(path, y));
}

/// A one-token edit at `path` is an edit of the root at the child's path.
proof fn lemma_op_child(path: Seq<char>, token: Seq<char>, kind: EditKind, value: Option<JsonView>)
    ensures
        op_view(path + seq!['/'] + escaped(token), Edit { kind, at: seq![], value }) == op_view(
            path,
            Edit { kind, at: seq![token], value },
        ),
{
    assert(seq![token].drop_first() =~= Seq::<Seq<char>>::empty());
}

/// A JSON-Patch operation: its kind, its path and, where there is one, its
/// value.
fn op(kind: &str, path: &str, value: Option<Json>) -> (r: Json)
    ensures
        r@ == JsonView::Object(
            match value {
                Some(v) => Map::<Seq<char>, JsonView>::empty().insert(
                    "op"@,
                    JsonView::Str(kind@),
                ).insert("path"@, JsonView::Str(path@)).insert("value"@, v@),
                None => Map::<Seq<char>, JsonView>::empty().insert(
                    "op"@,
                    JsonView::Str(kind@),
                ).insert("path"@, JsonView::Str(path@)),
            },
        ),
{
    let mut o: Vec<(String, Json)> = Vec::new();
    let kind_entry: (String, Json) = ("op".to_owned(), Json::Str(kind.to_owned()));
    proof {
        lemma_entries_push(o@, kind_entry);
    }
    o.push(kind_entry);
    let path_entry: (String, Json) = ("path".to_owned(), Json::Str(path.to_owned()));
    proof {
        lemma_entries_push(o@, path_entry);
    }
    o.push(path_entry);
    if let Some(v) = value {
        let value_entry: (String, Json) = ("value".to_owned(), v);
        proof {
            lemma_entries_push(o@, value_entry);
        }
        o.push(value_entry);
    }
    Json::Object(o)
}

/// The JSON-Patch operations that turn `old` into `new`.
pub fn diff(old: &Json, new: &Json) -> (r: Vec<Json>)
    ensures
        values_view(r@) == ops_view(seq![], edits(old@, new@)),
{
    let mut ops: Vec<Json> = Vec::new();
    let root: String = String::new();
    diff_value(old, new, root.as_str(), &mut ops);
    proof {
        assert(values_view(ops@) =~= ops_view(seq![], edits(old@, new@)));
    }
    ops
}

fn diff_value(from: &Json, to: &Json, path: &str, ops: &mut Vec<Json>)
    ensures
        values_view(final(ops)@) == values_view(old(ops)@) + ops_view(path@, edits(from@, to@)),
    decreases from, 2nat,
{
    if from.same_as(to) {
        proof {
            assert(values_view(ops@) =~= values_view(ops@) + ops_view(path@, edits(from@, to@)));
        }
        return ;
    }
    match (from, to) {
        (Json::Object(a), Json::Object(b)) => {
            diff_object(from, to, a, b, path, ops);
        },
        (Json::Array(a), Json::Array(b)) => {
            proof {
                assert(from@->Array_0 =~= values_view(a@));
                assert(to@->Array_0 =~= values_view(b@));
            }
            if compares_by_place(a, b) {
                diff_array_positional(from, to, a, b, path, ops);
            } else {
                diff_array_lcs(a, b, path, ops);
            }
        },
        _ => {
            let ghost before = values_view(ops@);
            ops.push(op("replace", path, Some(to.clone())));
            proof {
                assert(values_view(ops@) =~= before + ops_view(path@, edits(from@, to@)));
            }
        },
    }
}

fn diff_object(
    from: &Json,
    to: &Json,
    a: &Vec<(String, Json)>,
    b: &Vec<(String, Json)>,
    path: &str,
    ops: &mut Vec<Json>,
)
    requires
        *from == Json::Object(*a),
        *to == Json::Object(*b),
        !same(from@, to@),
    ensures
        values_view(final(ops)@) == values_view(old(ops)@) + ops_view(path@, edits(from@, to@)),
    decreases from, 1nat,
{
    let ghost before = values_view(ops@);
    let ghost m = entries_view(a@);
    let ghost n = entries_view(b@);
    let old_keys: Vec<String> = sorted_keys(a);
    let new_keys: Vec<String> = sorted_keys(b);
    let ghost oks = text_views(old_keys@);
    let ghost nks = text_views(new_keys@);
    let mut i: usize = 0;
    proof {
        assert(oks.take(0) =~= Seq::<Seq<char>>::empty());
        assert(before + ops_view(path@, removals(oks.take(0), n)) =~= before);
    }
    while i < old_keys.len()
        invariant
            i <= old_keys.len(),
            oks == text_views(old_keys@),
            n == entries_view(b@),
            values_view(ops@) == before + ops_view(path@, removals(oks.take(i as int), n)),
        decreases old_keys.len() - i,
    {
        let key: &str = old_keys[i].as_str();
        proof {
            assert(oks.take(i + 1).drop_last() =~= oks.take(i as int));
            assert(oks.take(i + 1).last() == key@);
        }
        if lookup(b, key).is_none() {
            let ghost prev = values_view(ops@);
            let child: String = child_path(path, key);
            ops.push(op("remove", child.as_str(), None));
            proof {
                lemma_op_child(path@, key@, EditKind::Remove, None);
                assert(values_view(ops@) =~= prev.push(op_view(path@, remove_at(key@))));
                assert(ops_view(path@, removals(oks.take(i + 1), n)) =~= ops_view(
                    path@,
                    removals(oks.take(i as int), n),
                ).push(op_view(path@, remove_at(key@))));
                assert(values_view(ops@) =~= before + ops_view(
                    path@,
                    removals(oks.take(i + 1), n),
                ));
            }
        }
        i = i + 1;
    }
    let ghost gone = removals(oks, n);
    proof {
        assert(oks.take(oks.len() as int) =~= oks);
        assert(nks.take(0) =~= Seq::<Seq<char>>::empty());
        assert(gone + settings(from@, to@, nks.take(0)) =~= gone);
    }
    let mut j: usize = 0;
    while j < new_keys.len()
        invariant
            j <= new_keys.len(),
            nks == text_views(new_keys@),
            nks.to_set() == n.dom(),
            m == entries_view(a@),
            n == entries_view(b@),
            *from == Json::Object(*a),
            *to == Json::Object(*b),
            from@ == JsonView::Object(m),
            to@ == JsonView::Object(n),
            values_view(ops@) == before + ops_view(
                path@,
                gone + settings(from@, to@, nks.take(j as int)),
            ),
        decreases new_keys.len() - j,
    {
        let key: &str = new_keys[j].as_str();
        let ghost done = settings(from@, to@, nks.take(j as int));
        proof {
            assert(nks.take(j + 1).drop_last() =~= nks.take(j as int));
            assert(nks.take(j + 1).last() == key@);
            assert(nks.to_set().contains(nks[j as int]));
        }
        let child: String = child_path(path, key);
        let ghost prev = values_view(ops@);
        match place_of(b, key) {
            Some(y) => {
                match place_of(a, key) {
                    None => {
                        ops.push(op("add", child.as_str(), Some(b[y].1.clone())));
                        proof {
                            let e = add_at(key@, n[key@]);
                            lemma_op_child(path@, key@, EditKind::Add, Some(n[key@]));
                            assert(values_view(ops@) =~= prev.push(op_view(path@, e)));
                            assert(settings(from@, to@, nks.take(j + 1)) == done + seq![e]);
                            assert(gone + settings(from@, to@, nks.take(j + 1)) =~= (gone + done)
                                + seq![e]);
                            lemma_ops_concat(path@, gone + done, seq![e]);
                            assert(ops_view(path@, seq![e]) =~= seq![op_view(path@, e)]);
                            assert(values_view(ops@) =~= before + ops_view(
                                path@,
                                gone + settings(from@, to@, nks.take(j + 1)),
                            ));
                        }
                    },
                    Some(x) => {
                        diff_value(&a[x].1, &b[y].1, child.as_str(), ops);
                        proof {
                            let es = edits(m[key@], n[key@]);
                            lemma_ops_under(path@, key@, es);
                            assert(settings(from@, to@, nks.take(j + 1)) == done + under(key@, es));
                            assert(gone + settings(from@, to@, nks.take(j + 1)) =~= (gone + done)
                                + under(key@, es));
                            lemma_ops_concat(path@, gone + done, under(key@, es));
                            assert(values_view(ops@) =~= before + ops_view(
                                path@,
                                gone + settings(from@, to@, nks.take(j + 1)),
                            ));
                        }
                    },
                }
            },
            None => {},
        }
        j = j + 1;
    }
    proof {
        assert(nks.take(nks.len() as int) =~= nks);
    }
}

/// Whether two arrays are compared place by place.
fn compares_by_place(a: &Vec<Json>, b: &Vec<Json>) -> (r: bool)
    ensures
        r == by_place(values_view(a@), values_view(b@)),
{
    let ghost x = values_view(a@);
    let ghost y = values_view(b@);
    if a.len() == b.len() {
        let mut count: usize = 0;
        let mut i: usize = 0;
        while i < a.len()
            invariant
                i <= a.len(),
                a.len() == b.len(),
                count <= i,
                x == values_view(a@),
                y == values_view(b@),
                count == aligned(x, y, i as nat),
            decreases a.len() - i,
        {
            if a[i].same_as(&b[i]) {
                count = count + 1;
            }
            i = i + 1;
        }
        if count >= a.len() - count || a.len() <= 8 {
            return true;
        }
    }
    proof {
        assert(a.len() * b.len() <= 0xffff_ffff_ffff_ffff * 0xffff_ffff_ffff_ffff)
            by (nonlinear_arith)
            requires
                a.len() <= 0xffff_ffff_ffff_ffff,
                b.len() <= 0xffff_ffff_ffff_ffff,
        ;
    }
    (a.len() as u128) * (b.len() as u128) > LCS_MAX_CELLS as u128
}

/// Compares two arrays place by place over the places that both have, then cuts
/// or appends.
fn diff_array_positional(
    from: &Json,
    to: &Json,
    a: &Vec<Json>,
    b: &Vec<Json>,
    path: &str,
    ops: &mut Vec<Json>,
)
    requires
        *from == Json::Array(*a),
        *to == Json::Array(*b),
        !same(from@, to@),
        by_place(values_view(a@), values_view(b@)),
    ensures
        values_view(final(ops)@) == values_view(old(ops)@) + ops_view(path@, edits(from@, to@)),
    decreases from, 1nat,
{
    let ghost before = values_view(ops@);
    let ghost x = values_view(a@);
    let ghost y = values_view(b@);
    proof {
        assert(from@->Array_0 =~= x);
        assert(to@->Array_0 =~= y);
    }
    let shared: usize = if a.len() <= b.len() {
        a.len()
    } else {
        b.len()
    };
    let mut i: usize = 0;
    proof {
        assert(before + ops_view(path@, place_edits(from@, to@, 0)) =~= before);
    }
    while i < shared
        invariant
            i <= shared,
            shared <= a.len(),
            shared <= b.len(),
            *from == Json::Array(*a),
            *to == Json::Array(*b),
            x == values_view(a@),
            y == values_view(b@),
            from@ == JsonView::Array(x),
            to@ == JsonView::Array(y),
            values_view(ops@) == before + ops_view(path@, place_edits(from@, to@, i as nat)),
        decreases shared - i,
    {
        let token: String = decimal_text(i as u64);
        let child: String = child_path(path, token.as_str());
        diff_value(&a[i], &b[i], child.as_str(), ops);
        proof {
            let es = edits(x[i as int], y[i as int]);
            lemma_ops_under(path@, token@, es);
            lemma_ops_concat(path@, place_edits(from@, to@, i as nat), under(token@, es));
            assert(place_edits(from@, to@, (i + 1) as nat) == place_edits(from@, to@, i as nat)
                + under(token@, es));
            assert(values_view(ops@) =~= before + ops_view(
                path@,
                place_edits(from@, to@, (i + 1) as nat),
            ));
        }
        i = i + 1;
    }
    let ghost placed = place_edits(from@, to@, shared as nat);
    let ghost n = shared as nat;
    let mut c: usize = shared;
    proof {
        let none = Seq::new(0, |k: int| remove_at(decimal(n)));
        assert(placed + none =~= placed);
    }
    while c < a.len()
        invariant
            n == shared,
            shared <= c <= a.len(),
            values_view(ops@) == before + ops_view(
                path@,
                placed + Seq::new((c - shared) as nat, |k: int| remove_at(decimal(n))),
            ),
        decreases a.len() - c,
    {
        let ghost prev = values_view(ops@);
        let ghost cut = Seq::new((c - shared) as nat, |k: int| remove_at(decimal(n)));
        let token: String = decimal_text(shared as u64);
        let child: String = child_path(path, token.as_str());
        ops.push(op("remove", child.as_str(), None));
        proof {
            let e = remove_at(decimal(n));
            lemma_op_child(path@, token@, EditKind::Remove, None);
            assert(values_view(ops@) =~= prev.push(op_view(path@, e)));
            assert(placed + Seq::new((c + 1 - shared) as nat, |k: int| remove_at(decimal(n)))
                =~= (placed + cut) + seq![e]);
            lemma_ops_concat(path@, placed + cut, seq![e]);
            assert(ops_view(path@, seq![e]) =~= seq![op_view(path@, e)]);
            assert(values_view(ops@) =~= before + ops_view(path@, (placed + cut) + seq![e]));
        }
        c = c + 1;
    }
    let ghost kept = placed + cut_edits(a@.len(), n);
    let mut j: usize = shared;
    proof {
        let none = Seq::new(0, |k: int| add_at(decimal((n + k) as nat), y[n + k]));
        assert(kept + none =~= kept);
        if a.len() > shared {
            assert(kept =~= placed + Seq::new(
                (a.len() - shared) as nat,
                |k: int| remove_at(decimal(n)),
            ));
        } else {
            assert(kept =~= placed + Seq::new(
                (c - shared) as nat,
                |k: int| remove_at(decimal(n)),
            ));
        }
    }
    while j < b.len()
        invariant
            n == shared,
            shared <= j <= b.len(),
            y == values_view(b@),
            values_view(ops@) == before + ops_view(
                path@,
                kept + Seq::new(
                    (j - shared) as nat,
                    |k: int| add_at(decimal((n + k) as nat), y[n + k]),
                ),
            ),
        decreases b.len() - j,
    {
        let ghost prev = values_view(ops@);
        let ghost added = Seq::new(
            (j - shared) as nat,
            |k: int| add_at(decimal((n + k) as nat), y[n + k]),
        );
        let token: String = decimal_text(j as u64);
        let child: String = child_path(path, token.as_str());
        ops.push(op("add", child.as_str(), Some(b[j].clone())));
        proof {
            let e = add_at(decimal(j as nat), y[j as int]);
            lemma_op_child(path@, token@, EditKind::Add, Some(y[j as int]));
            assert(values_view(ops@) =~= prev.push(op_view(path@, e)));
            assert(kept + Seq::new(
                (j + 1 - shared) as nat,
                |k: int| add_at(decimal((n + k) as nat), y[n + k]),
            ) =~= (kept + added) + seq![e]);
            lemma_ops_concat(path@, kept + added, seq![e]);
            assert(ops_view(path@, seq![e]) =~= seq![op_view(path@, e)]);
            assert(values_view(ops@) =~= before + ops_view(path@, (kept + added) + seq![e]));
        }
        j = j + 1;
    }
    proof {
        assert(overlap(x, y) == n);
        assert(kept + append_edits(y, n) =~= kept + Seq::new(
            (j - shared) as nat,
            |k: int| add_at(decimal((n + k) as nat), y[n + k]),
        ));
    }
}

/// `row` holds the lengths for `a` from `i`, by the place in `b`.
spec fn is_row(row: Seq<usize>, a: Seq<JsonView>, b: Seq<JsonView>, i: int) -> bool {
    &&& row.len() == b.len() + 1
    &&& forall|k: int| 0 <= k <= b.len() ==> #[trigger] row[k] == lcs(a, b, i as nat, k as nat)
}

/// `row` holds the lengths for `a` from `i`, from the end of `b` to its start,
/// as far as `n` of them.
spec fn is_back_row(row: Seq<usize>, a: Seq<JsonView>, b: Seq<JsonView>, i: int, n: int) -> bool {
    &&& row.len() == n
    &&& forall|k: int|
        0 <= k < n ==> #[trigger] row[k] == lcs(a, b, i as nat, (b.len() - k) as nat)
}

/// The table of the lengths of longest common subsequences: row `i`, column `j`
/// is that of `a` from `i` and `b` from `j`.
fn lcs_table(a: &Vec<Json>, b: &Vec<Json>) -> (dp: Vec<Vec<usize>>)
    requires
        a.len() < usize::MAX,
        b.len() < usize::MAX,
    ensures
        dp.len() == a.len() + 1,
        forall|i: int|
            0 <= i <= a.len() ==> is_row((#[trigger] dp@[i])@, values_view(a@), values_view(b@), i),
{
    let n: usize = a.len();
    let m: usize = b.len();
    let ghost x = values_view(a@);
    let ghost y = values_view(b@);
    // rows from the last to the first, each from its last column to its first
    let mut rows: Vec<Vec<usize>> = Vec::new();
    let mut last: Vec<usize> = Vec::new();
    let mut c: usize = 0;
    while c < m + 1
        invariant
            c <= m + 1,
            m < usize::MAX,
            last.len() == c,
            forall|k: int| 0 <= k < c ==> last@[k] == 0,
        decreases m + 1 - c,
    {
        last.push(0);
        c = c + 1;
    }
    rows.push(last);
    let mut i: usize = n;
    while i > 0
        invariant
            i <= n,
            n == a.len(),
            m == b.len(),
            n < usize::MAX,
            m < usize::MAX,
            x == values_view(a@),
            y == values_view(b@),
            rows.len() == n - i + 1,
            forall|r: int|
                0 <= r < rows.len() ==> is_back_row((#[trigger] rows@[r])@, x, y, n - r, m + 1),
        decreases i,
    {
        i = i - 1;
        let below: usize = rows.len() - 1;
        let mut row: Vec<usize> = Vec::new();
        row.push(0);
        let mut j: usize = m;
        while j > 0
            invariant
                j <= m,
                i < n,
                n == a.len(),
                m == b.len(),
                n < usize::MAX,
                m < usize::MAX,
                x == values_view(a@),
                y == values_view(b@),
                rows.len() == n - i,
                below == rows.len() - 1,
                is_back_row(row@, x, y, i as int, m - j + 1),
                forall|r: int|
                    0 <= r < rows.len() ==> is_back_row((#[trigger] rows@[r])@, x, y, n - r, m + 1),
            decreases j,
        {
            j = j - 1;
            let k: usize = m - j;
            proof {
                lemma_lcs_bound(x, y, (i + 1) as nat, (j + 1) as nat);
                assert(is_back_row(rows@[below as int]@, x, y, i + 1, m + 1));
                assert(rows@[below as int]@[k - 1] == lcs(x, y, (i + 1) as nat, (j + 1) as nat));
                assert(rows@[below as int]@[k as int] == lcs(x, y, (i + 1) as nat, j as nat));
                assert(row@[k - 1] == lcs(x, y, i as nat, (j + 1) as nat));
            }
            let cell: usize = if a[i].same_as(&b[j]) {
                rows[below][k - 1] + 1
            } else if rows[below][k] >= row[k - 1] {
                rows[below][k]
            } else {
                row[k - 1]
            };
            row.push(cell);
        }
        rows.push(row);
    }
    let mut dp: Vec<Vec<usize>> = Vec::new();
    let mut p: usize = 0;
    while p < n + 1
        invariant
            p <= n + 1,
            n < usize::MAX,
            m < usize::MAX,
            n == a.len(),
            m == b.len(),
            dp.len() == p,
            rows.len() == n + 1,
            x == values_view(a@),
            y == values_view(b@),
            forall|r: int|
                0 <= r < rows.len() ==> is_back_row((#[trigger] rows@[r])@, x, y, n - r, m + 1),
            forall|r: int| 0 <= r < p ==> is_row((#[trigger] dp@[r])@, x, y, r),
        decreases n + 1 - p,
    {
        let mut row: Vec<usize> = Vec::new();
        let mut q: usize = 0;
        while q < m + 1
            invariant
                q <= m + 1,
                p <= n,
                m < usize::MAX,
                m == b.len(),
                y == values_view(b@),
                row.len() == q,
                rows.len() == n + 1,
                forall|r: int|
                    0 <= r < rows.len() ==> is_back_row((#[trigger] rows@[r])@, x, y, n - r, m + 1),
                forall|k: int| 0 <= k < q ==> #[trigger] row@[k] == lcs(x, y, p as nat, k as nat),
            decreases m + 1 - q,
        {
            proof {
                assert(is_back_row(rows@[n - p]@, x, y, p as int, m + 1));
                assert(rows@[n - p]@[m - q] == lcs(x, y, p as nat, q as nat));
            }
            row.push(rows[n - p][m - q]);
            q = q + 1;
        }
        dp.push(row);
        p = p + 1;
    }
    dp
}

/// A common subsequence is no longer than what it is taken from.
pub proof fn lemma_lcs_bound(a: Seq<JsonView>, b: Seq<JsonView>, i: nat, j: nat)
    ensures
        i <= a.len() ==> lcs(a, b, i, j) <= a.len() - i,
        j <= b.len() ==> lcs(a, b, i, j) <= b.len() - j,
    decreases (a.len() - i) + (b.len() - j),
{
    if i < a.len() && j < b.len() {
        lemma_lcs_bound(a, b, i + 1, j + 1);
        lemma_lcs_bound(a, b, i + 1, j);
        lemma_lcs_bound(a, b, i, j + 1);
    }
}

/// Compares two arrays along a longest common subsequence: what is not in it is
/// removed or added, from the front to the back.
fn diff_array_lcs(a: &Vec<Json>, b: &Vec<Json>, path: &str, ops: &mut Vec<Json>)
    requires
        !by_place(values_view(a@), values_view(b@)),
    ensures
        values_view(final(ops)@) == values_view(old(ops)@) + ops_view(
            path@,
            script(values_view(a@), values_view(b@), 0, 0),
        ),
{
    let ghost before = values_view(ops@);
    let ghost x = values_view(a@);
    let ghost y = values_view(b@);
    let ghost all = script(x, y, 0, 0);
    let n: usize = a.len();
    let m: usize = b.len();
    let dp: Vec<Vec<usize>> = if n > 0 && m > 0 {
        proof {
            assert(n <= LCS_MAX_CELLS && m <= LCS_MAX_CELLS) by (nonlinear_arith)
                requires
                    n > 0,
                    m > 0,
                    n * m <= LCS_MAX_CELLS,
            ;
        }
        lcs_table(a, b)
    } else {
        Vec::new()
    };
    let mut i: usize = 0;
    let mut j: usize = 0;
    let ghost mut done: Seq<Edit> = seq![];
    proof {
        assert(done + all =~= all);
        assert(before + ops_view(path@, done) =~= before);
    }
    while i < n || j < m
        invariant
            i <= n,
            j <= m,
            n == a.len(),
            m == b.len(),
            x == values_view(a@),
            y == values_view(b@),
            n > 0 && m > 0 ==> dp.len() == n + 1,
            forall|r: int|
                n > 0 && m > 0 && 0 <= r <= n ==> is_row((#[trigger] dp@[r])@, x, y, r),
            done + script(x, y, i as nat, j as nat) == all,
            values_view(ops@) == before + ops_view(path@, done),
        decreases (n - i) + (m - j),
    {
        if i < n && j < m && a[i].same_as(&b[j]) {
            i = i + 1;
            j = j + 1;
        } else {
            proof {
                if i < n && j < m {
                    assert(is_row(dp@[i + 1]@, x, y, i + 1));
                    assert(is_row(dp@[i as int]@, x, y, i as int));
                    assert(dp@[i + 1]@[j as int] == lcs(x, y, (i + 1) as nat, j as nat));
                    assert(dp@[i as int]@[j + 1] == lcs(x, y, i as nat, (j + 1) as nat));
                }
            }
            let ghost rest = script(x, y, i as nat, j as nat);
            let ghost prev = values_view(ops@);
            let removes: bool = j >= m || (i < n && dp[i + 1][j] >= dp[i][j + 1]);
            let token: String = decimal_text(j as u64);
            let child: String = child_path(path, token.as_str());
            let ghost e: Edit;
            if removes {
                ops.push(op("remove", child.as_str(), None));
                proof {
                    e = remove_at(decimal(j as nat));
                    lemma_op_child(path@, token@, EditKind::Remove, None);
                }
                i = i + 1;
            } else {
                ops.push(op("add", child.as_str(), Some(b[j].clone())));
                proof {
                    e = add_at(decimal(j as nat), y[j as int]);
                    lemma_op_child(path@, token@, EditKind::Add, Some(y[j as int]));
                }
                j = j + 1;
            }
            proof {
                assert(values_view(ops@) =~= prev.push(op_view(path@, e)));
                assert(rest =~= seq![e] + script(x, y, i as nat, j as nat));
                assert(done + rest =~= (done + seq![e]) + script(x, y, i as nat, j as nat));
                lemma_ops_concat(path@, done, seq![e]);
                assert(ops_view(path@, seq![e]) =~= seq![op_view(path@, e)]);
                assert(values_view(ops@) =~= before + ops_view(path@, done + seq![e]));
                done = done + seq![e];
            }
        }
    }
    proof {
        assert(done + script(x, y, n as nat, m as nat) =~= done);
    }
}

}
