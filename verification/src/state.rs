//! Room state synchronization: the state that clients were last told of, the
//! patches that bring them up to date, and edits of the state by path.

use crate::diff::{diff, edits, ops_view};
use crate::diff_laws::law_diff_empty_iff_equal;
use crate::json::{
    clone_entries, clone_values, place_of, remove_entry, same, set_entry, values_view, Json,
    JsonView,
};
use crate::text::{decimal, decimal_text, joined, parse_unsigned, text_views, unsigned_value};
use vstd::prelude::*;

verus! {

/// Serializer id sent in the join handshake when a state is present.
pub const JSON_PATCH_SERIALIZER_ID: &'static str = "json-patch";

/// Serializer id when the room has no state.
pub const NONE_SERIALIZER_ID: &'static str = "none";

/// A state edit applied through the admin panel.
#[derive(Debug)]
pub enum StateEdit {
    Put(Json),
    Remove,
}

/// What an edit asks for.
pub enum EditView {
    Put(JsonView),
    Remove,
}

impl View for StateEdit {
    type V = EditView;

    open spec fn view(&self) -> EditView {
        match self {
            StateEdit::Put(v) => EditView::Put(v@),
            StateEdit::Remove => EditView::Remove,
        }
    }
}

/// The index that a path segment names in an array.
pub open spec fn segment_index(seg: Seq<char>) -> Option<nat> {
    unsigned_value(seg, usize::MAX as nat)
}

/// The edit of a container at its own segment.
pub open spec fn edit_here(root: JsonView, seg: Seq<char>, edit: EditView) -> Result<
    JsonView,
    Seq<char>,
> {
    match root {
        JsonView::Object(m) => match edit {
            EditView::Put(v) => Ok(JsonView::Object(m.insert(seg, v))),
            EditView::Remove => if m.dom().contains(seg) {
                Ok(JsonView::Object(m.remove(seg)))
            } else {
                Err("no such key: "@ + seg)
            },
        },
        JsonView::Array(s) => match segment_index(seg) {
            None => Err("bad array index: "@ + seg),
            Some(i) => if i >= s.len() {
                Err("array index out of range: "@ + decimal(i))
            } else {
                match edit {
                    EditView::Put(v) => Ok(JsonView::Array(s.update(i as int, v))),
                    EditView::Remove => Ok(JsonView::Array(s.remove(i as int))),
                }
            },
        },
        _ => Err("path parent is not a container"@),
    }
}

/// The document after an edit at a path: the last segment is set in, or removed
/// from, the container that the segments before it lead to. The error says which
/// step failed.
pub open spec fn edit_result(root: JsonView, path: Seq<Seq<char>>, edit: EditView) -> Result<
    JsonView,
    Seq<char>,
>
    decreases path.len(),
{
    if path.len() == 0 {
        match edit {
            EditView::Put(v) => Ok(v),
            EditView::Remove => Err("cannot remove the state root"@),
        }
    } else if path.len() == 1 {
        edit_here(root, path[0], edit)
    } else {
        let seg = path[0];
        match root {
            JsonView::Object(m) => if m.dom().contains(seg) {
                match edit_result(m[seg], path.drop_first(), edit) {
                    Ok(v) => Ok(JsonView::Object(m.insert(seg, v))),
                    Err(e) => Err(e),
                }
            } else {
                Err("no such path: "@ + seg)
            },
            JsonView::Array(s) => match segment_index(seg) {
                None => Err("bad array index: "@ + seg),
                Some(i) => if i >= s.len() {
                    Err("array index out of range: "@ + decimal(i))
                } else {
                    match edit_result(s[i as int], path.drop_first(), edit) {
                        Ok(v) => Ok(JsonView::Array(s.update(i as int, v))),
                        Err(e) => Err(e),
                    }
                },
            },
            _ => Err("cannot descend into "@ + seg),
        }
    }
}

/// The value that a path leads to.
pub open spec fn value_at(root: JsonView, path: Seq<Seq<char>>) -> Option<JsonView>
    decreases path.len(),
{
    if path.len() == 0 {
        Some(root)
    } else {
        match root {
            JsonView::Object(m) => if m.dom().contains(path[0]) {
                value_at(m[path[0]], path.drop_first())
            } else {
                None
            },
            JsonView::Array(s) => match segment_index(path[0]) {
                Some(i) => if i < s.len() {
                    value_at(s[i as int], path.drop_first())
                } else {
                    None
                },
                None => None,
            },
            _ => None,
        }
    }
}

/// What was set at a path is what the path leads to afterwards.
pub proof fn law_edit_set_reads_back(root: JsonView, path: Seq<Seq<char>>, v: JsonView)
    requires
        edit_result(root, path, EditView::Put(v)) is Ok,
    ensures
        value_at(edit_result(root, path, EditView::Put(v))->Ok_0, path) == Some(v),
    decreases path.len(),
{
    let r = edit_result(root, path, EditView::Put(v))->Ok_0;
    if path.len() == 1 {
        match r {
            JsonView::Object(m) => {
                assert(value_at(m[path[0]], path.drop_first()) == Some(m[path[0]]));
            },
            JsonView::Array(s) => {
                let i = segment_index(path[0])->Some_0;
                assert(value_at(s[i as int], path.drop_first()) == Some(s[i as int]));
            },
            _ => {},
        }
    } else if path.len() > 1 {
        match root {
            JsonView::Object(m) => {
                law_edit_set_reads_back(m[path[0]], path.drop_first(), v);
            },
            JsonView::Array(s) => {
                let i = segment_index(path[0])->Some_0;
                law_edit_set_reads_back(s[i as int], path.drop_first(), v);
            },
            _ => {},
        }
    }
}

/// An edit keeps every place that it does not name: a key beside the path, at
/// any depth along it, still leads to the value that it led to.
pub proof fn law_edit_keeps_siblings(
    root: JsonView,
    path: Seq<Seq<char>>,
    edit: EditView,
    depth: int,
    other: Seq<char>,
)
    requires
        edit_result(root, path, edit) is Ok,
        0 <= depth < path.len(),
        value_at(root, path.take(depth)) matches Some(parent) && parent is Object,
        other != path[depth],
    ensures
        value_at(edit_result(root, path, edit)->Ok_0, path.take(depth).push(other)) == value_at(
            root,
            path.take(depth).push(other),
        ),
    decreases path.len(),
{
    let r = edit_result(root, path, edit)->Ok_0;
    let probe = path.take(depth).push(other);
    if depth == 0 {
        assert(path.take(0) =~= seq![]);
        assert(probe.drop_first() =~= seq![]);
        assert(probe[0] == other);
    } else {
        let rest = path.drop_first();
        assert(path.take(depth).drop_first() =~= rest.take(depth - 1));
        assert(probe.drop_first() =~= rest.take(depth - 1).push(other));
        assert(probe[0] == path[0]);
        assert(path.take(depth)[0] == path[0]);
        match root {
            JsonView::Object(m) => {
                law_edit_keeps_siblings(m[path[0]], rest, edit, depth - 1, other);
            },
            JsonView::Array(s) => {
                let i = segment_index(path[0])->Some_0;
                law_edit_keeps_siblings(s[i as int], rest, edit, depth - 1, other);
            },
            _ => {},
        }
    }
}

/// A result of an edit, read through its views.
pub open spec fn result_view(r: Result<Json, String>) -> Result<JsonView, Seq<char>> {
    match r {
        Ok(v) => Ok(v@),
        Err(e) => Err(e@),
    }
}

fn index_of(seg: &str) -> (r: Result<usize, String>)
    ensures
        r matches Ok(i) ==> segment_index(seg@) == Some(i as nat),
        r matches Err(e) ==> segment_index(seg@) is None && e@ == "bad array index: "@ + seg@,
{
    match parse_unsigned(seg, usize::MAX as u64) {
        Some(i) => Ok(i as usize),
        None => Err(joined("bad array index: ", seg)),
    }
}

fn out_of_range(i: usize) -> (r: String)
    ensures
        r@ == "array index out of range: "@ + decimal(i as nat),
{
    let digits: String = decimal_text(i as u64);
    joined("array index out of range: ", digits.as_str())
}

fn edited_here(root: &Json, seg: &str, edit: &StateEdit) -> (r: Result<Json, String>)
    ensures
        result_view(r) == edit_here(root@, seg@, edit@),
{
    match root {
        Json::Object(entries) => {
            match edit {
                StateEdit::Put(v) => {
                    let mut es: Vec<(String, Json)> = clone_entries(entries);
                    set_entry(&mut es, seg, v.clone());
                    Ok(Json::Object(es))
                },
                StateEdit::Remove => {
                    if place_of(entries, seg).is_none() {
                        return Err(joined("no such key: ", seg));
                    }
                    let mut es: Vec<(String, Json)> = clone_entries(entries);
                    remove_entry(&mut es, seg);
                    Ok(Json::Object(es))
                },
            }
        },
        Json::Array(items) => {
            let i: usize = match index_of(seg) {
                Ok(i) => i,
                Err(e) => {
                    return Err(e);
                },
            };
            if i >= items.len() {
                return Err(out_of_range(i));
            }
            let mut s: Vec<Json> = clone_values(items);
            proof {
                assert(root@->Array_0 =~= values_view(s@));
            }
            let ghost before = values_view(s@);
            match edit {
                StateEdit::Put(v) => {
                    s.set(i, v.clone());
                    proof {
                        assert(Json::Array(s)@->Array_0 =~= before.update(i as int, v@));
                    }
                },
                StateEdit::Remove => {
                    s.remove(i);
                    proof {
                        assert(Json::Array(s)@->Array_0 =~= before.remove(i as int));
                    }
                },
            }
            Ok(Json::Array(s))
        },
        _ => Err("path parent is not a container".to_owned()),
    }
}

fn edited_from(root: &Json, path: &Vec<String>, from: usize, edit: &StateEdit) -> (r: Result<
    Json,
    String,
>)
    requires
        from < path.len(),
    ensures
        result_view(r) == edit_result(root@, text_views(path@).skip(from as int), edit@),
    decreases path.len() - from,
{
    let ghost rest = text_views(path@).skip(from as int);
    let seg: &str = path[from].as_str();
    proof {
        assert(rest[0] == seg@);
        assert(rest.drop_first() =~= text_views(path@).skip(from + 1));
    }
    if from + 1 == path.len() {
        return edited_here(root, seg, edit);
    }
    match root {
        Json::Object(entries) => {
            match place_of(entries, seg) {
                None => Err(joined("no such path: ", seg)),
                Some(p) => {
                    match edited_from(&entries[p].1, path, from + 1, edit) {
                        Err(e) => Err(e),
                        Ok(v) => {
                            let mut es: Vec<(String, Json)> = clone_entries(entries);
                            set_entry(&mut es, seg, v);
                            Ok(Json::Object(es))
                        },
                    }
                },
            }
        },
        Json::Array(items) => {
            let i: usize = match index_of(seg) {
                Ok(i) => i,
                Err(e) => {
                    return Err(e);
                },
            };
            if i >= items.len() {
                return Err(out_of_range(i));
            }
            match edited_from(&items[i], path, from + 1, edit) {
                Err(e) => Err(e),
                Ok(v) => {
                    let mut s: Vec<Json> = clone_values(items);
                    proof {
                        assert(root@->Array_0 =~= values_view(s@));
                    }
                    let ghost before = values_view(s@);
                    let ghost item = v@;
                    s.set(i, v);
                    proof {
                        assert(Json::Array(s)@->Array_0 =~= before.update(i as int, item));
                    }
                    Ok(Json::Array(s))
                },
            }
        },
        _ => Err(joined("cannot descend into ", seg)),
    }
}

/// Sets or removes the value at a path. Segments name keys of objects and
/// indices of arrays. Where the edit fails, the document stays as it was.
pub fn edit_at_path(root: &mut Json, path: &Vec<String>, edit: &StateEdit) -> (r: Result<(), String>)
    ensures
        match edit_result(old(root)@, text_views(path@), edit@) {
            Ok(v) => r is Ok && final(root)@ == v,
            Err(e) => r matches Err(m) && m@ == e && *final(root) == *old(root),
        },
{
    if path.len() == 0 {
        match edit {
            StateEdit::Put(v) => {
                *root = v.clone();
                Ok(())
            },
            StateEdit::Remove => Err("cannot remove the state root".to_owned()),
        }
    } else {
        proof {
            assert(text_views(path@).skip(0) =~= text_views(path@));
        }
        match edited_from(root, path, 0, edit) {
            Ok(v) => {
                *root = v;
                Ok(())
            },
            Err(e) => Err(e),
        }
    }
}

/// The room's state and the state that clients were last told of.
pub struct StateSlot {
    current: Json,
    snapshot: Json,
}

impl StateSlot {
    /// The state as it is.
    pub closed spec fn current(self) -> JsonView {
        self.current@
    }

    /// The state that clients were last told of.
    pub closed spec fn told(self) -> JsonView {
        self.snapshot@
    }

    pub fn new(state: Json) -> (r: Self)
        ensures
            r.current() == state@,
            r.told() == state@,
    {
        let snapshot: Json = state.clone();
        StateSlot { current: state, snapshot }
    }

    /// The current full state, which joining clients are sent.
    pub fn full(&self) -> (r: Json)
        ensures
            r@ == self.current(),
    {
        self.current.clone()
    }

    /// Puts a new state in place. Clients hear of it with the next patch.
    pub fn set(&mut self, state: Json)
        ensures
            final(self).current() == state@,
            final(self).told() == old(self).told(),
    {
        self.current = state;
    }

    /// What the state would be with an edit at a path.
    pub fn edited(&self, path: &Vec<String>, edit: &StateEdit) -> (r: Result<Json, String>)
        ensures
            match edit_result(self.current(), text_views(path@), edit@) {
                Ok(v) => r matches Ok(j) && j@ == v,
                Err(e) => r matches Err(m) && m@ == e,
            },
    {
        let mut state: Json = self.current.clone();
        match edit_at_path(&mut state, path, edit) {
            Ok(()) => Ok(state),
            Err(e) => Err(e),
        }
    }

    /// Puts an edited state in place, as the room's state type took it, or leaves
    /// the state as it is where the type did not take it. Clients hear of it with
    /// the next patch.
    pub fn apply_edit(&mut self, taken: Result<Json, String>) -> (r: Result<(), String>)
        ensures
            final(self).told() == old(self).told(),
            match taken {
                Ok(v) => r is Ok && final(self).current() == v@,
                Err(e) => (r matches Err(m) && m@ == e@) && final(self).current() == old(
                    self,
                ).current(),
            },
    {
        match taken {
            Ok(v) => {
                self.current = v;
                Ok(())
            },
            Err(e) => Err(e),
        }
    }

    /// The JSON-Patch that brings clients from what they were last told to the
    /// current state, or `None` where nothing changed. What it returns counts as
    /// told.
    pub fn diff(&mut self) -> (r: Option<Json>)
        ensures
            final(self).current() == old(self).current(),
            r is None <==> same(old(self).told(), old(self).current()),
            r matches Some(patch) ==> patch@ == JsonView::Array(
                ops_view(seq![], edits(old(self).told(), old(self).current())),
            ) && final(self).told() == old(self).current(),
            r is None ==> final(self).told() == old(self).told(),
    {
        if self.current.same_as(&self.snapshot) {
            return None;
        }
        let ops: Vec<Json> = diff(&self.snapshot, &self.current);
        proof {
            law_diff_empty_iff_equal(self.snapshot, self.current);
            assert(values_view(ops@).len() == ops@.len());
        }
        self.snapshot = self.current.clone();
        if ops.len() == 0 {
            return None;
        }
        proof {
            assert(Json::Array(ops)@->Array_0 =~= values_view(ops@));
        }
        Some(Json::Array(ops))
    }
}

}
